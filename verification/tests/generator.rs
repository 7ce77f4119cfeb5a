use tfgen::collect_variables;
use tfgen::derive_outputs;
use tfgen::Attr;
use tfgen::AttrValue;
use tfgen::DeclKind;
use tfgen::DeclarationBlock;
use tfgen::Field;
use tfgen::Node;

fn obj(fields: Vec<(&str, Node)>) -> Node {
    Node::Object(
        fields
            .into_iter()
            .map(|(k, v)| Field {
                key: k.to_string(),
                value: v,
            })
            .collect(),
    )
}

fn text(s: &str) -> Node {
    Node::Text(s.to_string())
}

fn labels(blocks: &[DeclarationBlock]) -> Vec<String> {
    blocks.iter().map(|b| b.label.clone()).collect()
}

fn value_path(b: &DeclarationBlock) -> Vec<String> {
    match &b.attrs[0].value {
        AttrValue::Path(p) => p.clone(),
        AttrValue::Text(_) => panic!("expected an address expression"),
    }
}

fn assert_variable_shape(b: &DeclarationBlock, name: &str) {
    assert_eq!(b.kind, DeclKind::Variable);
    assert_eq!(b.label, name);
    assert_eq!(b.attrs.len(), 3);
    assert_eq!(
        b.attrs[0],
        Attr {
            name: "type".to_string(),
            value: AttrValue::Path(vec!["string".to_string()]),
        }
    );
    assert_eq!(
        b.attrs[1],
        Attr {
            name: "default".to_string(),
            value: AttrValue::Path(vec!["null".to_string()]),
        }
    );
    assert_eq!(
        b.attrs[2],
        Attr {
            name: "description".to_string(),
            value: AttrValue::Text(String::new()),
        }
    );
}

fn assert_output_shape(b: &DeclarationBlock, label: &str, path: &[&str]) {
    assert_eq!(b.kind, DeclKind::Output);
    assert_eq!(b.label, label);
    assert_eq!(b.attrs.len(), 2);
    assert_eq!(b.attrs[0].name, "value");
    let got: Vec<String> = value_path(b);
    let want: Vec<String> = path.iter().map(|s| s.to_string()).collect();
    assert_eq!(got, want);
    assert_eq!(
        b.attrs[1],
        Attr {
            name: "description".to_string(),
            value: AttrValue::Text(String::new()),
        }
    );
}

#[test]
fn variable_dedup_and_sort() {
    let doc = obj(vec![
        ("one", text("a=${var.x}")),
        ("two", text("b=${var.x}")),
        ("three", text("c=${var.y}")),
    ]);
    let vars = collect_variables(&doc);
    assert_eq!(vars.len(), 2);
    assert_variable_shape(&vars[0], "x");
    assert_variable_shape(&vars[1], "y");
}

#[test]
fn repeated_runs_agree() {
    let doc = obj(vec![
        ("resource", obj(vec![("aws_instance", obj(vec![(
            "foo",
            obj(vec![("ami", text("${var.ami}")), ("id", text("fixed"))]),
        )]))])),
        ("locals", obj(vec![("x", text("1"))])),
    ]);
    let vars_a = collect_variables(&doc);
    let vars_b = collect_variables(&doc);
    assert_eq!(vars_a, vars_b);
    let outs_a = derive_outputs(&doc);
    let outs_b = derive_outputs(&doc);
    assert_eq!(outs_a, outs_b);
}

#[test]
fn non_string_leaves_are_inert() {
    let doc = obj(vec![
        ("resource", obj(vec![("aws_instance", obj(vec![(
            "foo",
            obj(vec![("count", Node::Other), ("enabled", Node::Other)]),
        )]))])),
        ("numbers", Node::Other),
    ]);
    let vars = collect_variables(&doc);
    assert_eq!(vars.len(), 0);
}

#[test]
fn resource_addressing() {
    let doc = obj(vec![("resource", obj(vec![("aws_instance", obj(vec![(
        "foo",
        obj(vec![("ami", text("ami-123456")), ("id", text("i-789"))]),
    )]))]))]);
    let outs = derive_outputs(&doc);
    assert_eq!(outs.len(), 2);
    assert_output_shape(&outs[0], "resource_aws_instance_foo_ami", &["aws_instance", "foo", "ami"]);
    assert_output_shape(&outs[1], "resource_aws_instance_foo_id", &["aws_instance", "foo", "id"]);
}

#[test]
fn data_addressing() {
    let doc = obj(vec![("data", obj(vec![("aws_ami", obj(vec![(
        "foo",
        obj(vec![("id", text("ami-42"))]),
    )]))]))]);
    let outs = derive_outputs(&doc);
    assert_eq!(outs.len(), 1);
    assert_output_shape(&outs[0], "data_aws_ami_foo_id", &["data", "aws_ami", "foo", "id"]);
}

#[test]
fn locals_addressing() {
    let doc = obj(vec![("locals", obj(vec![("x", text("1"))]))]);
    let outs = derive_outputs(&doc);
    assert_eq!(outs.len(), 1);
    assert_output_shape(&outs[0], "locals_x", &["locals", "x"]);
}

#[test]
fn module_addressing() {
    let doc = obj(vec![("module", obj(vec![(
        "network",
        obj(vec![("source", text("./network"))]),
    )]))]);
    let outs = derive_outputs(&doc);
    assert_eq!(outs.len(), 1);
    assert_output_shape(&outs[0], "module_network", &["module", "network"]);
}

#[test]
fn locals_follow_object_order_not_sorted() {
    let doc = obj(vec![("locals", obj(vec![("b", text("2")), ("a", text("1"))]))]);
    let outs = derive_outputs(&doc);
    assert_eq!(labels(&outs), vec!["locals_b".to_string(), "locals_a".to_string()]);
}

#[test]
fn unknown_kind_skipped_by_deriver_seen_by_collector() {
    let doc = obj(vec![("provider", obj(vec![(
        "aws",
        obj(vec![("region", text("${var.region}"))]),
    )]))]);
    let outs = derive_outputs(&doc);
    assert_eq!(outs.len(), 0);
    let vars = collect_variables(&doc);
    assert_eq!(vars.len(), 1);
    assert_variable_shape(&vars[0], "region");
}

#[test]
fn non_object_root_yields_nothing() {
    let doc = text("a=${var.x}");
    assert_eq!(collect_variables(&doc).len(), 0);
    assert_eq!(derive_outputs(&doc).len(), 0);
    assert_eq!(collect_variables(&Node::Other).len(), 0);
    assert_eq!(derive_outputs(&Node::Other).len(), 0);
}

#[test]
fn empty_document() {
    let doc = obj(vec![]);
    assert_eq!(collect_variables(&doc).len(), 0);
    assert_eq!(derive_outputs(&doc).len(), 0);
}

#[test]
fn non_object_branches_are_skipped_not_fatal() {
    let doc = obj(vec![
        ("resource", text("not a block")),
        ("data", obj(vec![("aws_ami", text("also not a block"))])),
    ]);
    let outs = derive_outputs(&doc);
    assert_eq!(outs.len(), 0);
    // The collector still scans those same strings.
    let vars = collect_variables(&doc);
    assert_eq!(vars.len(), 0);
}

#[test]
fn collector_descends_all_levels() {
    let doc = obj(vec![("resource", obj(vec![("aws_instance", obj(vec![(
        "foo",
        obj(vec![("nested", obj(vec![("deep", text("${var.deep_one}"))]))]),
    )]))]))]);
    let vars = collect_variables(&doc);
    assert_eq!(vars.len(), 1);
    assert_variable_shape(&vars[0], "deep_one");
}

#[test]
fn one_string_many_references() {
    let doc = obj(vec![("a", text("${var.b}-${var.a}-${var.b}-${var.c9}"))]);
    let vars = collect_variables(&doc);
    assert_eq!(
        labels(&vars),
        vec!["a".to_string(), "b".to_string(), "c9".to_string()]
    );
}

#[test]
fn marker_without_name_is_no_reference() {
    let doc = obj(vec![("a", text("var. and var.|x and var"))]);
    assert_eq!(collect_variables(&doc).len(), 0);
}

#[test]
fn matches_do_not_overlap() {
    // The scan consumes `var.avar` whole, so no reference to `b` remains.
    let doc = obj(vec![("a", text("var.avar.b"))]);
    assert_eq!(labels(&collect_variables(&doc)), vec!["avar".to_string()]);
}

#[test]
fn marker_found_mid_word() {
    let doc = obj(vec![("a", text("servar.host"))]);
    assert_eq!(labels(&collect_variables(&doc)), vec!["host".to_string()]);
}

#[test]
fn sort_is_case_sensitive_by_code_point() {
    let doc = obj(vec![("a", text("${var.a} ${var.Z} ${var.B}"))]);
    assert_eq!(
        labels(&collect_variables(&doc)),
        vec!["B".to_string(), "Z".to_string(), "a".to_string()]
    );
}

#[test]
fn output_order_follows_document_order_across_kinds() {
    let doc = obj(vec![
        ("data", obj(vec![("aws_ami", obj(vec![("img", obj(vec![("id", text("x"))]))]))])),
        ("locals", obj(vec![("y", text("1"))])),
        ("resource", obj(vec![("aws_sqs_queue", obj(vec![(
            "q",
            obj(vec![("arn", text("a"))]),
        )]))])),
    ]);
    let outs = derive_outputs(&doc);
    assert_eq!(
        labels(&outs),
        vec![
            "data_aws_ami_img_id".to_string(),
            "locals_y".to_string(),
            "resource_aws_sqs_queue_q_arn".to_string(),
        ]
    );
}

#[test]
fn grouping_kinds_ignore_body_shape() {
    // One output per local name, whatever the local's value looks like.
    let doc = obj(vec![("locals", obj(vec![
        ("s", text("1")),
        ("n", Node::Other),
        ("o", obj(vec![("inner", text("2"))])),
    ]))]);
    let outs = derive_outputs(&doc);
    assert_eq!(
        labels(&outs),
        vec!["locals_s".to_string(), "locals_n".to_string(), "locals_o".to_string()]
    );
}

#[test]
fn resource_attribute_values_are_ignored() {
    // Outputs come from the body's keys; the values under them do not matter.
    let doc = obj(vec![("resource", obj(vec![("aws_s3_bucket", obj(vec![(
        "b",
        obj(vec![("policy", obj(vec![("deep", text("x"))])), ("tags", Node::Other)]),
    )]))]))]);
    let outs = derive_outputs(&doc);
    assert_eq!(
        labels(&outs),
        vec![
            "resource_aws_s3_bucket_b_policy".to_string(),
            "resource_aws_s3_bucket_b_tags".to_string(),
        ]
    );
    assert_eq!(value_path(&outs[0]), vec!["aws_s3_bucket".to_string(), "b".to_string(), "policy".to_string()]);
}

#[test]
fn underscores_and_digits_belong_to_names() {
    let doc = obj(vec![("a", text("${var.my_name_2}.tail"))]);
    assert_eq!(labels(&collect_variables(&doc)), vec!["my_name_2".to_string()]);
}

#[test]
fn prefix_orders_before_extension() {
    let doc = obj(vec![("a", text("${var.ab} ${var.a} ${var.abc}"))]);
    assert_eq!(
        labels(&collect_variables(&doc)),
        vec!["a".to_string(), "ab".to_string(), "abc".to_string()]
    );
}

#[test]
fn multibyte_text_around_references() {
    let doc = obj(vec![("a", text("héllo — ${var.size} ✓ vär.nope var.tail"))]);
    assert_eq!(
        labels(&collect_variables(&doc)),
        vec!["size".to_string(), "tail".to_string()]
    );
}
