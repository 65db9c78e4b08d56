//! The catalog parser: the `toml` crate decodes the configuration text
//! into a value tree, and verified code then checks the tree for the
//! expected shape, a `runners` array of tables each holding a string
//! `name` and a string-array `command`, and builds the catalog from it.

use crate::structs::{MazeRunner, MazeRunnerError, MazeRunnerErrorKind, MazeRunners, RunnerView};
use vstd::prelude::*;
use vstd::string::StringExecFns;

verus! {

broadcast use vstd::std_specs::vec::group_vec_axioms, vstd::seq::group_seq_axioms;

/// A decoded TOML value tree, holding as plain values exactly what the
/// shape check reads. A float or datetime leaf can appear in a
/// configuration file, but no part of the catalog is read from one, so
/// such a leaf carries nothing here.
pub enum TomlNode {
    Str(String),
    Int(i64),
    Bool(bool),
    Arr(Vec<TomlNode>),
    Tab(Vec<(String, TomlNode)>),
    Other,
}

/// Abstract value of a `TomlNode`.
pub enum TomlView {
    Str(Seq<char>),
    Int(i64),
    Bool(bool),
    Arr(Seq<TomlView>),
    Tab(Seq<(Seq<char>, TomlView)>),
    Other,
}

/// Abstract value of a node: each leaf by its plain value, each list and
/// table entrywise.
pub open spec fn node_view(node: TomlNode) -> TomlView
    decreases node,
    via node_view_decreases
{
    match node {
        TomlNode::Str(s) => TomlView::Str(s@),
        TomlNode::Int(i) => TomlView::Int(i),
        TomlNode::Bool(b) => TomlView::Bool(b),
        TomlNode::Arr(items) => TomlView::Arr(node_views(items@)),
        TomlNode::Tab(entries) => TomlView::Tab(entry_views(entries@)),
        TomlNode::Other => TomlView::Other,
    }
}

/// Abstract values of a list of nodes, in order.
pub open spec fn node_views(items: Seq<TomlNode>) -> Seq<TomlView>
    decreases items,
{
    if items.len() == 0 {
        Seq::empty()
    } else {
        node_views(items.drop_last()).push(node_view(items.last()))
    }
}

/// Abstract values of the key-value entries of a table, in order.
pub open spec fn entry_views(entries: Seq<(String, TomlNode)>) -> Seq<(Seq<char>, TomlView)>
    decreases entries,
{
    if entries.len() == 0 {
        Seq::empty()
    } else {
        entry_views(entries.drop_last()).push(
            (entries.last().0@, node_view(entries.last().1)),
        )
    }
}

#[via_fn]
proof fn node_view_decreases(node: TomlNode) {
    match node {
        TomlNode::Arr(items) => {
            assert(decreases_to!(node => items));
            assert(decreases_to!(items => items@));
        }
        TomlNode::Tab(entries) => {
            assert(decreases_to!(node => entries));
            assert(decreases_to!(entries => entries@));
        }
        _ => {}
    }
}

impl View for TomlNode {
    type V = TomlView;

    open spec fn view(&self) -> TomlView {
        node_view(*self)
    }
}

/// `node_views` is the elementwise image of `node_view`.
pub proof fn lemma_node_views(items: Seq<TomlNode>)
    ensures
        node_views(items).len() == items.len(),
        forall|i: int| 0 <= i < items.len() ==> node_views(items)[i] == node_view(
            #[trigger] items[i],
        ),
    decreases items.len(),
{
    if items.len() > 0 {
        lemma_node_views(items.drop_last());
        assert forall|i: int| 0 <= i < items.len() implies node_views(items)[i] == node_view(
            #[trigger] items[i],
        ) by {
            if i < items.len() - 1 {
                assert(items.drop_last()[i] == items[i]);
            } else {
                assert(items.last() == items[i]);
            }
        }
    }
}

/// The value bound to `key` in a table: the first binding wins.
pub open spec fn tab_get(entries: Seq<(Seq<char>, TomlView)>, key: Seq<char>) -> Option<TomlView>
    decreases entries.len(),
{
    if entries.len() == 0 {
        None
    } else if entries[0].0 == key {
        Some(entries[0].1)
    } else {
        tab_get(entries.drop_first(), key)
    }
}

/// The strings of an array of values: `Some` exactly when every element
/// is a string, and then the strings in order.
pub open spec fn strings_of(items: Seq<TomlView>) -> Option<Seq<Seq<char>>>
    decreases items.len(),
{
    if items.len() == 0 {
        Some(Seq::empty())
    } else {
        match (strings_of(items.drop_last()), items.last()) {
            (Some(init), TomlView::Str(s)) => Some(init.push(s)),
            _ => None,
        }
    }
}

/// The command definition a value describes: it must be a table holding a
/// string under `name` and an array of strings under `command`; any other
/// key of the table is ignored.
pub open spec fn runner_of(v: TomlView) -> Option<RunnerView> {
    match v {
        TomlView::Tab(entries) => match (
            tab_get(entries, "name"@),
            tab_get(entries, "command"@),
        ) {
            (Some(TomlView::Str(name)), Some(TomlView::Arr(items))) => match strings_of(items) {
                Some(command) => Some(RunnerView { name, command }),
                None => None,
            },
            _ => None,
        },
        _ => None,
    }
}

/// The runner definitions of an array of values, in order: `Some` exactly
/// when every element is a well-formed runner table.
pub open spec fn runners_of(items: Seq<TomlView>) -> Option<Seq<RunnerView>>
    decreases items.len(),
{
    if items.len() == 0 {
        Some(Seq::empty())
    } else {
        match (runners_of(items.drop_last()), runner_of(items.last())) {
            (Some(init), Some(r)) => Some(init.push(r)),
            _ => None,
        }
    }
}

/// The catalog a decoded configuration document describes: the document
/// must be a table whose `runners` key holds an array of well-formed
/// runner tables; `Some` exactly when that shape is met. Any other
/// top-level key is ignored.
pub open spec fn catalog_of(doc: TomlView) -> Option<Seq<RunnerView>> {
    match doc {
        TomlView::Tab(entries) => match tab_get(entries, "runners"@) {
            Some(TomlView::Arr(items)) => runners_of(items),
            _ => None,
        },
        _ => None,
    }
}

/// `entry_views` keeps length, keys and values entrywise.
pub proof fn lemma_entry_views(entries: Seq<(String, TomlNode)>)
    ensures
        entry_views(entries).len() == entries.len(),
        forall|i: int| 0 <= i < entries.len() ==> entry_views(entries)[i] == (
            #[trigger] entries[i].0@,
            node_view(entries[i].1),
        ),
    decreases entries.len(),
{
    if entries.len() > 0 {
        lemma_entry_views(entries.drop_last());
        assert forall|i: int| 0 <= i < entries.len() implies entry_views(entries)[i] == (
            #[trigger] entries[i].0@,
            node_view(entries[i].1),
        ) by {
            if i < entries.len() - 1 {
                assert(entries.drop_last()[i] == entries[i]);
            } else {
                assert(entries.last() == entries[i]);
            }
        }
    }
}

/// An array whose decoded prefix already fails the all-strings check
/// fails it as a whole.
proof fn lemma_strings_of_none(items: Seq<TomlView>, k: int)
    requires
        0 <= k <= items.len(),
        strings_of(items.take(k)) is None,
    ensures
        strings_of(items) is None,
    decreases items.len() - k,
{
    if k == items.len() {
        assert(items.take(k) =~= items);
    } else {
        assert(items.take(k + 1).drop_last() =~= items.take(k));
        lemma_strings_of_none(items, k + 1);
    }
}

/// An array whose decoded prefix already fails the runner check fails it
/// as a whole.
proof fn lemma_runners_of_none(items: Seq<TomlView>, k: int)
    requires
        0 <= k <= items.len(),
        runners_of(items.take(k)) is None,
    ensures
        runners_of(items) is None,
    decreases items.len() - k,
{
    if k == items.len() {
        assert(items.take(k) =~= items);
    } else {
        assert(items.take(k + 1).drop_last() =~= items.take(k));
        lemma_runners_of_none(items, k + 1);
    }
}

/// A well-formed array yields one catalog entry per element, in the
/// array's order.
pub proof fn lemma_runners_of_entrywise(items: Seq<TomlView>, cat: Seq<RunnerView>)
    requires
        runners_of(items) == Some(cat),
    ensures
        cat.len() == items.len(),
        forall|i: int| 0 <= i < items.len() ==> runner_of(#[trigger] items[i]) == Some(cat[i]),
    decreases items.len(),
{
    if items.len() > 0 {
        let init = runners_of(items.drop_last())->Some_0;
        lemma_runners_of_entrywise(items.drop_last(), init);
        assert forall|i: int| 0 <= i < items.len() implies runner_of(#[trigger] items[i])
            == Some(cat[i]) by {
            if i < items.len() - 1 {
                assert(items.drop_last()[i] == items[i]);
            } else {
                assert(items.last() == items[i]);
            }
        }
    }
}

/// Parsing is entrywise: a document whose shape is accepted yields a
/// catalog with exactly one entry, in order, for each element of its
/// `runners` array.
pub proof fn lemma_catalog_entrywise(doc: TomlView, cat: Seq<RunnerView>)
    requires
        catalog_of(doc) == Some(cat),
    ensures
        doc matches TomlView::Tab(entries) && tab_get(entries, "runners"@) matches Some(
            TomlView::Arr(items),
        ) && cat.len() == items.len() && forall|i: int|
            0 <= i < items.len() ==> runner_of(#[trigger] items[i]) == Some(cat[i]),
{
    let entries = doc->Tab_0;
    let items = tab_get(entries, "runners"@)->Some_0->Arr_0;
    lemma_runners_of_entrywise(items, cat);
}

#[verifier::external_type_specification]
#[verifier::external_body]
pub struct ExTomlValue(toml::Value);

/// What the `toml` crate decodes a configuration text into: `Some` of the
/// document's value tree when the text is valid TOML, `None` otherwise.
/// The result depends on the text alone.
pub uninterp spec fn toml_value_of(text: Seq<char>) -> Option<TomlView>;

/// Relies on the variants of `toml::Value` alone: each is carried over
/// one to one into the tree the shape check walks; a float or datetime
/// leaf carries nothing the catalog reads.
#[verifier::external_body]
fn node_of_value(value: toml::Value) -> TomlNode {
    match value {
        toml::Value::String(s) => TomlNode::Str(s),
        toml::Value::Integer(i) => TomlNode::Int(i),
        toml::Value::Boolean(b) => TomlNode::Bool(b),
        toml::Value::Float(_) => TomlNode::Other,
        toml::Value::Datetime(_) => TomlNode::Other,
        toml::Value::Array(items) => TomlNode::Arr(
            items.into_iter().map(node_of_value).collect(),
        ),
        toml::Value::Table(table) => TomlNode::Tab(
            table.into_iter().map(|(k, v)| (k, node_of_value(v))).collect(),
        ),
    }
}

/// Relies on `toml::from_str`: it decodes TOML text into a table of
/// values exactly when the text is a valid TOML document; whether it
/// succeeds, and what it yields, depend on the text alone.
#[verifier::external_body]
fn decode_toml(text: &str) -> (r: Result<TomlNode, String>)
    ensures
        r matches Ok(n) ==> toml_value_of(text@) == Some(n@),
        r is Ok <==> toml_value_of(text@) is Some,
{
    match toml::from_str::<toml::Table>(text) {
        Ok(table) => Ok(node_of_value(toml::Value::Table(table))),
        Err(e) => Err(e.to_string()),
    }
}

/// The error reported for a decoded document that does not have the
/// catalog shape.
fn shape_error() -> (e: MazeRunnerError)
    ensures
        e.kind_spec() == MazeRunnerErrorKind::Toml,
        e.message_view() == "TOML Error: the text does not describe a runner catalog"@,
{
    MazeRunnerError::new(
        MazeRunnerErrorKind::Toml,
        "TOML Error: the text does not describe a runner catalog".to_owned(),
    )
}

/// The value bound to `key` among a table's entries; the first binding
/// wins, exactly as `tab_get` states it.
fn node_tab_get<'a>(entries: &'a Vec<(String, TomlNode)>, key: &String) -> (r: Option<
    &'a TomlNode,
>)
    ensures
        match r {
            Some(n) => tab_get(entry_views(entries@), key@) == Some(node_view(*n)),
            None => tab_get(entry_views(entries@), key@) is None,
        },
{
    proof {
        lemma_entry_views(entries@);
        assert(entry_views(entries@).skip(0) =~= entry_views(entries@));
    }
    let mut j: usize = 0;
    while j < entries.len()
        invariant
            j <= entries.len(),
            entry_views(entries@).len() == entries@.len(),
            forall|i: int| 0 <= i < entries@.len() ==> entry_views(entries@)[i] == (
                #[trigger] entries@[i].0@,
                node_view(entries@[i].1),
            ),
            tab_get(entry_views(entries@), key@) == tab_get(
                entry_views(entries@).skip(j as int),
                key@,
            ),
        decreases entries.len() - j,
    {
        let entry = &entries[j];
        proof {
            assert(entry_views(entries@).skip(j as int)[0] == entry_views(entries@)[j as int]);
        }
        if entry.0 == *key {
            return Some(&entry.1);
        }
        proof {
            assert(entry_views(entries@).skip(j as int).drop_first() =~= entry_views(
                entries@,
            ).skip(j as int + 1));
        }
        j += 1;
    }
    proof {
        assert(entry_views(entries@).skip(j as int) =~= Seq::empty());
    }
    None
}

/// Collects the strings of an array of nodes; `None` as soon as some
/// element is not a string, exactly as `strings_of` states it.
fn node_strings(items: &Vec<TomlNode>) -> (r: Option<Vec<String>>)
    ensures
        match r {
            Some(v) => strings_of(node_views(items@)) == Some(v.deep_view()),
            None => strings_of(node_views(items@)) is None,
        },
{
    proof {
        lemma_node_views(items@);
    }
    let ghost full = node_views(items@);
    let mut out: Vec<String> = Vec::new();
    let mut j: usize = 0;
    while j < items.len()
        invariant
            j <= items.len(),
            full == node_views(items@),
            full.len() == items@.len(),
            forall|i: int| 0 <= i < items@.len() ==> full[i] == node_view(#[trigger] items@[i]),
            strings_of(full.take(j as int)) == Some(out.deep_view()),
        decreases items.len() - j,
    {
        let ghost prefix = full.take(j as int);
        let ghost prev = out.deep_view();
        proof {
            assert(full.take(j as int + 1).drop_last() =~= prefix);
            assert(full.take(j as int + 1).last() == full[j as int]);
        }
        let item = &items[j];
        match item {
            TomlNode::Str(s) => {
                out.push(s.clone());
                proof {
                    assert(out.deep_view() =~= prev.push(s@));
                }
            },
            _ => {
                proof {
                    lemma_strings_of_none(full, j as int + 1);
                }
                return None;
            },
        }
        j += 1;
    }
    proof {
        assert(full.take(j as int) =~= full);
    }
    Some(out)
}

/// The command definition one decoded value describes, exactly as
/// `runner_of` states it.
fn runner_from_node(node: &TomlNode) -> (r: Option<MazeRunner>)
    ensures
        match r {
            Some(m) => runner_of(node@) == Some(m@),
            None => runner_of(node@) is None,
        },
{
    match node {
        TomlNode::Tab(entries) => {
            let name_key: String = "name".to_owned();
            let command_key: String = "command".to_owned();
            let name_node = node_tab_get(entries, &name_key);
            let command_node = node_tab_get(entries, &command_key);
            match (name_node, command_node) {
                (Some(TomlNode::Str(name)), Some(TomlNode::Arr(items))) => {
                    match node_strings(items) {
                        Some(command) => Some(MazeRunner::new(name.clone(), command)),
                        None => None,
                    }
                },
                _ => None,
            }
        },
        _ => None,
    }
}

/// Builds the catalog from a decoded configuration document, checking
/// the shape that `catalog_of` states: the result is `Ok` exactly when
/// the document is a table whose `runners` key holds an array of
/// well-formed runner tables, and then it carries one entry per array
/// element, in order.
pub fn catalog_from_node(node: &TomlNode) -> (r: Result<MazeRunners, MazeRunnerError>)
    ensures
        r matches Ok(c) ==> catalog_of(node@) == Some(c@),
        r is Ok <==> catalog_of(node@) is Some,
        r matches Err(e) ==> e.kind_spec() == MazeRunnerErrorKind::Toml && e.message_view()
            == "TOML Error: the text does not describe a runner catalog"@,
{
    match node {
        TomlNode::Tab(entries) => {
            let runners_key: String = "runners".to_owned();
            match node_tab_get(entries, &runners_key) {
                Some(TomlNode::Arr(items)) => {
                    proof {
                        lemma_node_views(items@);
                    }
                    let ghost full = node_views(items@);
                    let mut out: Vec<MazeRunner> = Vec::new();
                    let mut j: usize = 0;
                    while j < items.len()
                        invariant
                            j <= items.len(),
                            full == node_views(items@),
                            full.len() == items@.len(),
                            forall|i: int| 0 <= i < items@.len() ==> full[i] == node_view(
                                #[trigger] items@[i],
                            ),
                            runners_of(full.take(j as int)) == Some(out.deep_view()),
                            node@ == TomlView::Tab(entry_views(entries@)),
                            tab_get(entry_views(entries@), "runners"@) == Some(
                                TomlView::Arr(full),
                            ),
                        decreases items.len() - j,
                    {
                        let ghost prefix = full.take(j as int);
                        let ghost prev = out.deep_view();
                        proof {
                            assert(full.take(j as int + 1).drop_last() =~= prefix);
                            assert(full.take(j as int + 1).last() == full[j as int]);
                        }
                        match runner_from_node(&items[j]) {
                            Some(m) => {
                                let ghost mv = m@;
                                out.push(m);
                                proof {
                                    assert(out.deep_view() =~= prev.push(mv));
                                }
                            },
                            None => {
                                proof {
                                    assert(runner_of(full[j as int]) is None);
                                    assert(runners_of(full.take(j as int + 1)) is None);
                                    lemma_runners_of_none(full, j as int + 1);
                                }
                                return Err(shape_error());
                            },
                        }
                        j += 1;
                    }
                    proof {
                        assert(full.take(j as int) =~= full);
                    }
                    Ok(MazeRunners { runners: out })
                },
                _ => Err(shape_error()),
            }
        },
        _ => Err(shape_error()),
    }
}

/// Parses a configuration text into the catalog: the text is decoded as
/// TOML and the decoded document is checked for the catalog shape. `Ok`
/// exactly when both steps accept, and then the catalog holds one entry
/// per element of the document's `runners` array, in the order of the
/// text.
pub fn parse_runners(text: &str) -> (r: Result<MazeRunners, MazeRunnerError>)
    ensures
        r matches Ok(c) ==> toml_value_of(text@) matches Some(doc) && catalog_of(doc) == Some(
            c@,
        ),
        r is Ok <==> (toml_value_of(text@) matches Some(doc) && catalog_of(doc) is Some),
        r matches Err(e) ==> e.kind_spec() == MazeRunnerErrorKind::Toml,
        toml_value_of(text@) is Some ==> (r matches Err(e) ==> e.message_view()
            == "TOML Error: the text does not describe a runner catalog"@),
{
    match decode_toml(text) {
        Ok(node) => catalog_from_node(&node),
        Err(detail) => {
            let mut message: String = "TOML Error: ".to_owned();
            message.append(detail.as_str());
            Err(MazeRunnerError::new(MazeRunnerErrorKind::Toml, message))
        },
    }
}

} // verus!
