//! Deriving output declarations.
//!
//! The deriver walks the top of the document — block kind, then block name —
//! and emits `output` declaration blocks whose address expressions depend on
//! the kind. `locals` and `module` blocks give one output per block name,
//! addressed as `<kind>.<name>`. `resource` and `data` blocks carry two name
//! levels (the declared type, then the instance name) and give one output per
//! attribute of each instance body, addressed as `<type>.<name>.<attr>` for
//! resources and `data.<type>.<name>.<attr>` for data sources: the word
//! `resource` is not part of a resource address, while data sources keep
//! their `data.` prefix. Every other block kind is skipped, and any branch
//! that is not the expected object shape is skipped rather than an error.

use crate::block::{is_output_block, output_block, DeclarationBlock};
use crate::node::{Field, Node};
use crate::order::str_eq;
use crate::scan::views_of;
use vstd::prelude::*;

verus! {

/// One derived output, at specification level: its label and the components
/// of its address expression.
pub struct OutputSpec {
    pub label: Seq<char>,
    pub path: Seq<Seq<char>>,
}

/// `<kind>_<name>`.
pub open spec fn joined2(kind: Seq<char>, name: Seq<char>) -> Seq<char> {
    kind + "_"@ + name
}

/// `<kind>_<type>_<name>_<attr>`.
pub open spec fn joined4(
    kind: Seq<char>,
    rtype: Seq<char>,
    name: Seq<char>,
    attr: Seq<char>,
) -> Seq<char> {
    kind + "_"@ + rtype + "_"@ + name + "_"@ + attr
}

/// A kind whose blocks are addressed as a whole: `locals` or `module`.
pub open spec fn is_grouping_kind(kind: Seq<char>) -> bool {
    kind == "locals"@ || kind == "module"@
}

/// A kind whose blocks are addressed per attribute: `resource` or `data`.
pub open spec fn is_attributed_kind(kind: Seq<char>) -> bool {
    kind == "resource"@ || kind == "data"@
}

/// The output derived for one attribute of a `resource` or `data` instance.
/// The kind itself is part of the address only for `data`; a resource is
/// addressed by its declared type and name alone.
pub open spec fn attr_output(
    kind: Seq<char>,
    rtype: Seq<char>,
    name: Seq<char>,
    attr: Seq<char>,
) -> OutputSpec {
    OutputSpec {
        label: joined4(kind, rtype, name, attr),
        path: if kind == "data"@ {
            seq![kind, rtype, name, attr]
        } else {
            seq![rtype, name, attr]
        },
    }
}

/// The outputs derived from the attributes of one instance body, in body
/// order.
pub open spec fn attrs_outputs(
    kind: Seq<char>,
    rtype: Seq<char>,
    name: Seq<char>,
    attrs: Seq<Field>,
) -> Seq<OutputSpec>
    decreases attrs.len(),
{
    if attrs.len() == 0 {
        Seq::empty()
    } else {
        attrs_outputs(kind, rtype, name, attrs.drop_last()).push(
            attr_output(kind, rtype, name, attrs.last().key@),
        )
    }
}

/// The outputs derived from one named instance of a `resource` or `data`
/// type. An instance whose body is not an object is skipped.
pub open spec fn instance_outputs(
    kind: Seq<char>,
    rtype: Seq<char>,
    name: Seq<char>,
    body: Node,
) -> Seq<OutputSpec> {
    match body {
        Node::Object(attrs) => attrs_outputs(kind, rtype, name, attrs@),
        _ => Seq::empty(),
    }
}

/// The outputs derived from the named instances of one `resource` or `data`
/// type, in document order.
pub open spec fn instances_outputs(
    kind: Seq<char>,
    rtype: Seq<char>,
    instances: Seq<Field>,
) -> Seq<OutputSpec>
    decreases instances.len(),
{
    if instances.len() == 0 {
        Seq::empty()
    } else {
        instances_outputs(kind, rtype, instances.drop_last()) + instance_outputs(
            kind,
            rtype,
            instances.last().key@,
            instances.last().value,
        )
    }
}

/// The outputs derived from one named block of the given kind.
pub open spec fn block_outputs(kind: Seq<char>, name: Seq<char>, body: Node) -> Seq<OutputSpec> {
    if is_grouping_kind(kind) {
        seq![OutputSpec { label: joined2(kind, name), path: seq![kind, name] }]
    } else if is_attributed_kind(kind) {
        match body {
            Node::Object(instances) => instances_outputs(kind, name, instances@),
            _ => Seq::empty(),
        }
    } else {
        Seq::empty()
    }
}

/// The outputs derived from the named blocks of one kind, in document order.
pub open spec fn blocks_outputs(kind: Seq<char>, blocks: Seq<Field>) -> Seq<OutputSpec>
    decreases blocks.len(),
{
    if blocks.len() == 0 {
        Seq::empty()
    } else {
        blocks_outputs(kind, blocks.drop_last()) + block_outputs(
            kind,
            blocks.last().key@,
            blocks.last().value,
        )
    }
}

/// The outputs derived from one top-level entry. An entry whose value is not
/// an object is skipped.
pub open spec fn entry_outputs(entry: Field) -> Seq<OutputSpec> {
    match entry.value {
        Node::Object(blocks) => blocks_outputs(entry.key@, blocks@),
        _ => Seq::empty(),
    }
}

/// The outputs derived from a run of top-level entries, in document order.
pub open spec fn entries_outputs(entries: Seq<Field>) -> Seq<OutputSpec>
    decreases entries.len(),
{
    if entries.len() == 0 {
        Seq::empty()
    } else {
        entries_outputs(entries.drop_last()) + entry_outputs(entries.last())
    }
}

/// Every output the deriver emits for the document, in document order. A
/// document whose root is not an object yields nothing.
pub open spec fn derived_outputs(root: Node) -> Seq<OutputSpec> {
    match root {
        Node::Object(entries) => entries_outputs(entries@),
        _ => Seq::empty(),
    }
}

/// `r` holds exactly the declaration blocks described by `o`, in order.
pub open spec fn outputs_match(r: Seq<DeclarationBlock>, o: Seq<OutputSpec>) -> bool {
    &&& r.len() == o.len()
    &&& forall|i: int|
        0 <= i < r.len() ==> is_output_block(#[trigger] r[i], o[i].label, o[i].path)
}

/// A block of a kind other than `resource`, `data`, `locals` and `module`
/// derives nothing, whatever its name and body.
pub proof fn lemma_unknown_kind_ignored(kind: Seq<char>, name: Seq<char>, body: Node)
    requires
        !is_grouping_kind(kind),
        !is_attributed_kind(kind),
    ensures
        block_outputs(kind, name, body) == Seq::<OutputSpec>::empty(),
{
}

/// `<a>_<b>` as an owned string.
fn join2(a: &String, b: &String) -> (r: String)
    ensures
        r@ == joined2(a@, b@),
{
    let r = a.clone();
    let r = r.concat("_");
    let r = r.concat(b.as_str());
    r
}

/// `<a>_<b>_<c>_<d>` as an owned string.
fn join4(a: &String, b: &String, c: &String, d: &String) -> (r: String)
    ensures
        r@ == joined4(a@, b@, c@, d@),
{
    let r = a.clone();
    let r = r.concat("_");
    let r = r.concat(b.as_str());
    let r = r.concat("_");
    let r = r.concat(c.as_str());
    let r = r.concat("_");
    let r = r.concat(d.as_str());
    r
}

/// The two-component address `<a>.<b>`.
fn path2(a: &String, b: &String) -> (p: Vec<String>)
    ensures
        views_of(p@) == seq![a@, b@],
{
    let mut p: Vec<String> = Vec::new();
    p.push(a.clone());
    p.push(b.clone());
    proof {
        assert(views_of(p@) =~= seq![a@, b@]);
    }
    p
}

/// The three-component address `<a>.<b>.<c>`.
fn path3(a: &String, b: &String, c: &String) -> (p: Vec<String>)
    ensures
        views_of(p@) == seq![a@, b@, c@],
{
    let mut p: Vec<String> = Vec::new();
    p.push(a.clone());
    p.push(b.clone());
    p.push(c.clone());
    proof {
        assert(views_of(p@) =~= seq![a@, b@, c@]);
    }
    p
}

/// The four-component address `<a>.<b>.<c>.<d>`.
fn path4(a: &String, b: &String, c: &String, d: &String) -> (p: Vec<String>)
    ensures
        views_of(p@) == seq![a@, b@, c@, d@],
{
    let mut p: Vec<String> = Vec::new();
    p.push(a.clone());
    p.push(b.clone());
    p.push(c.clone());
    p.push(d.clone());
    proof {
        assert(views_of(p@) =~= seq![a@, b@, c@, d@]);
    }
    p
}

/// Walks the top of the document and returns the derived output declaration
/// blocks, in document order.
#[verifier::loop_isolation(false)]
pub fn derive_outputs(root: &Node) -> (r: Vec<DeclarationBlock>)
    ensures
        outputs_match(r@, derived_outputs(*root)),
{
    let mut r: Vec<DeclarationBlock> = Vec::new();
    let entries = match root {
        Node::Object(entries) => entries,
        _ => {
            return r;
        },
    };
    let mut i: usize = 0;
    proof {
        assert(entries@.take(0) =~= Seq::<Field>::empty());
    }
    while i < entries.len()
        invariant
            i <= entries@.len(),
            outputs_match(r@, entries_outputs(entries@.take(i as int))),
        decreases entries@.len() - i,
    {
        let ghost done = entries_outputs(entries@.take(i as int));
        let kind = &entries[i].key;
        match &entries[i].value {
            Node::Object(blocks) => {
                let grouping = str_eq(kind.as_str(), "locals") || str_eq(kind.as_str(), "module");
                let attributed = str_eq(kind.as_str(), "resource") || str_eq(
                    kind.as_str(),
                    "data",
                );
                let mut j: usize = 0;
                proof {
                    assert(blocks@.take(0) =~= Seq::<Field>::empty());
                }
                while j < blocks.len()
                    invariant
                        j <= blocks@.len(),
                        outputs_match(r@, done + blocks_outputs(kind@, blocks@.take(j as int))),
                    decreases blocks@.len() - j,
                {
                    let ghost done_blocks = done + blocks_outputs(kind@, blocks@.take(j as int));
                    let name = &blocks[j].key;
                    let body = &blocks[j].value;
                    if grouping {
                        let b = output_block(join2(kind, name), path2(kind, name));
                        r.push(b);
                        proof {
                            let o = OutputSpec {
                                label: joined2(kind@, name@),
                                path: seq![kind@, name@],
                            };
                            assert(block_outputs(kind@, name@, *body) =~= seq![o]);
                            assert(outputs_match(r@, done_blocks.push(o)));
                        }
                    } else if attributed {
                        let is_data = str_eq(kind.as_str(), "data");
                        match body {
                            Node::Object(instances) => {
                                let mut m: usize = 0;
                                proof {
                                    assert(instances@.take(0) =~= Seq::<Field>::empty());
                                }
                                while m < instances.len()
                                    invariant
                                        m <= instances@.len(),
                                        outputs_match(
                                            r@,
                                            done_blocks + instances_outputs(
                                                kind@,
                                                name@,
                                                instances@.take(m as int),
                                            ),
                                        ),
                                    decreases instances@.len() - m,
                                {
                                    let ghost done_instances = done_blocks + instances_outputs(
                                        kind@,
                                        name@,
                                        instances@.take(m as int),
                                    );
                                    let iname = &instances[m].key;
                                    let ibody = &instances[m].value;
                                    match ibody {
                                        Node::Object(attrs) => {
                                            let mut k: usize = 0;
                                            proof {
                                                assert(attrs@.take(0) =~= Seq::<Field>::empty());
                                            }
                                            while k < attrs.len()
                                                invariant
                                                    k <= attrs@.len(),
                                                    outputs_match(
                                                        r@,
                                                        done_instances + attrs_outputs(
                                                            kind@,
                                                            name@,
                                                            iname@,
                                                            attrs@.take(k as int),
                                                        ),
                                                    ),
                                                decreases attrs@.len() - k,
                                            {
                                                let attr = &attrs[k].key;
                                                let label = join4(kind, name, iname, attr);
                                                let b = if is_data {
                                                    output_block(
                                                        label,
                                                        path4(kind, name, iname, attr),
                                                    )
                                                } else {
                                                    output_block(label, path3(name, iname, attr))
                                                };
                                                r.push(b);
                                                proof {
                                                    let taken = attrs@.take(k + 1);
                                                    assert(taken.drop_last() =~= attrs@.take(
                                                        k as int,
                                                    ));
                                                    assert(taken.last() == attrs@[k as int]);
                                                    let o = attr_output(
                                                        kind@,
                                                        name@,
                                                        iname@,
                                                        attrs@[k as int].key@,
                                                    );
                                                    assert(outputs_match(
                                                        r@,
                                                        (done_instances + attrs_outputs(
                                                            kind@,
                                                            name@,
                                                            iname@,
                                                            attrs@.take(k as int),
                                                        )).push(o),
                                                    ));
                                                    assert(done_instances + attrs_outputs(
                                                        kind@,
                                                        name@,
                                                        iname@,
                                                        taken,
                                                    ) =~= (done_instances + attrs_outputs(
                                                        kind@,
                                                        name@,
                                                        iname@,
                                                        attrs@.take(k as int),
                                                    )).push(o));
                                                }
                                                k += 1;
                                            }
                                            proof {
                                                assert(attrs@.take(attrs@.len() as int)
                                                    =~= attrs@);
                                                assert(instance_outputs(
                                                    kind@,
                                                    name@,
                                                    iname@,
                                                    *ibody,
                                                ) == attrs_outputs(kind@, name@, iname@, attrs@));
                                            }
                                        },
                                        _ => {
                                            proof {
                                                assert(instance_outputs(
                                                    kind@,
                                                    name@,
                                                    iname@,
                                                    *ibody,
                                                ) =~= Seq::<OutputSpec>::empty());
                                            }
                                        },
                                    }
                                    proof {
                                        let taken = instances@.take(m + 1);
                                        assert(taken.drop_last() =~= instances@.take(m as int));
                                        assert(taken.last() == instances@[m as int]);
                                        assert(done_blocks + instances_outputs(
                                            kind@,
                                            name@,
                                            taken,
                                        ) =~= done_instances + instance_outputs(
                                            kind@,
                                            name@,
                                            iname@,
                                            *ibody,
                                        ));
                                    }
                                    m += 1;
                                }
                                proof {
                                    assert(instances@.take(instances@.len() as int)
                                        =~= instances@);
                                    assert(block_outputs(kind@, name@, *body)
                                        == instances_outputs(kind@, name@, instances@));
                                }
                            },
                            _ => {
                                proof {
                                    assert(block_outputs(kind@, name@, *body) =~= Seq::<
                                        OutputSpec,
                                    >::empty());
                                }
                            },
                        }
                    } else {
                        proof {
                            assert(block_outputs(kind@, name@, *body) =~= Seq::<
                                OutputSpec,
                            >::empty());
                        }
                    }
                    proof {
                        let taken = blocks@.take(j + 1);
                        assert(taken.drop_last() =~= blocks@.take(j as int));
                        assert(taken.last() == blocks@[j as int]);
                        assert(done + blocks_outputs(kind@, taken) =~= (done + blocks_outputs(
                            kind@,
                            blocks@.take(j as int),
                        )) + block_outputs(kind@, name@, *body));
                    }
                    j += 1;
                }
                proof {
                    assert(blocks@.take(blocks@.len() as int) =~= blocks@);
                    assert(entry_outputs(entries@[i as int]) == blocks_outputs(kind@, blocks@));
                }
            },
            _ => {
                proof {
                    assert(entry_outputs(entries@[i as int]) =~= Seq::<OutputSpec>::empty());
                }
            },
        }
        proof {
            let taken = entries@.take(i + 1);
            assert(taken.drop_last() =~= entries@.take(i as int));
            assert(taken.last() == entries@[i as int]);
            assert(done + entry_outputs(entries@[i as int]) =~= entries_outputs(taken));
        }
        i += 1;
    }
    proof {
        assert(entries@.take(entries@.len() as int) =~= entries@);
    }
    r
}

} // verus!
