//! Initial conditions under dotted keys.
//!
//! A snapshot is read from a TOML document without knowing what any key means. Every nested table
//! becomes a prefix of its keys; what is not a number is left out.
use crate::catalog::{Catalog, CatalogView};
use crate::{double, text};
use vstd::prelude::*;

verus! {

/// A document as far as a snapshot reads it.
pub enum ConfigNode {
    Table(Vec<(String, ConfigNode)>),
    /// The bit pattern of a float.
    Float(u64),
    Integer(i64),
    /// A string, a boolean, a date or an array.
    Other,
}

/// What a [`ConfigNode`] holds.
pub enum ConfigView {
    Table(Seq<(Seq<char>, ConfigView)>),
    Float(u64),
    Integer(i64),
    Other,
}

/// One level of a TOML value.
pub enum OpenedValue {
    Table(Vec<(String, toml::Value)>),
    Float(u64),
    Integer(i64),
    Other,
}

/// A TOML value, opaque here.
#[verifier::external_type_specification]
#[verifier::external_body]
pub struct ExTomlValue(toml::Value);

/// What a TOML value holds. The entries of a table stand in the order in which the table hands
/// them out.
pub uninterp spec fn toml_tree(value: toml::Value) -> ConfigView;

/// What parsing a text as TOML gives: the document, or the text of the error.
pub uninterp spec fn toml_document(content: Seq<char>) -> Result<ConfigView, Seq<char>>;

/// Calls `toml::from_str`. The outcome, and the text of an error, depend on the content alone.
#[verifier::external_body]
fn parse_toml(content: &str) -> (parsed: Result<toml::Value, String>)
    ensures
        match parsed {
            Ok(value) => toml_document(content@) == Ok::<ConfigView, Seq<char>>(toml_tree(value)),
            Err(message) => toml_document(content@) == Err::<ConfigView, Seq<char>>(message@),
        },
{
    toml::from_str::<toml::Value>(content).map_err(|e| e.to_string())
}

/// Whether one level of a value is what the tree shows.
pub open spec fn is_opened(opened: OpenedValue, tree: ConfigView) -> bool {
    match (opened, tree) {
        (OpenedValue::Table(entries), ConfigView::Table(children)) => {
            &&& entries@.len() == children.len()
            &&& forall|i: int|
                0 <= i < children.len() ==> (#[trigger] entries@[i]).0@ == children[i].0
                    && toml_tree(entries@[i].1) == children[i].1
        },
        (OpenedValue::Float(a), ConfigView::Float(b)) => a == b,
        (OpenedValue::Integer(a), ConfigView::Integer(b)) => a == b,
        (OpenedValue::Other, ConfigView::Other) => true,
        _ => false,
    }
}

/// Takes a `toml::Value` apart by one level, variant by variant. A float is given by its bits, as
/// `to_bits` has them.
#[verifier::external_body]
fn open_toml(value: toml::Value) -> (opened: OpenedValue)
    ensures
        is_opened(opened, toml_tree(value)),
{
    match value {
        toml::Value::Table(table) => OpenedValue::Table(table.into_iter().collect()),
        toml::Value::Float(number) => OpenedValue::Float(number.to_bits()),
        toml::Value::Integer(number) => OpenedValue::Integer(number),
        _ => OpenedValue::Other,
    }
}

pub open spec fn entry_views(entries: Seq<(String, ConfigNode)>) -> Seq<(Seq<char>, ConfigView)>
    decreases entries,
{
    if entries.len() == 0 {
        Seq::empty()
    } else {
        entry_views(entries.drop_last()).push((entries.last().0@, entries.last().1.view()))
    }
}

impl ConfigNode {
    pub open spec fn view(&self) -> ConfigView
        decreases self,
    {
        match self {
            ConfigNode::Table(entries) => ConfigView::Table(entry_views(entries@)),
            ConfigNode::Float(number) => ConfigView::Float(*number),
            ConfigNode::Integer(number) => ConfigView::Integer(*number),
            ConfigNode::Other => ConfigView::Other,
        }
    }
}

/// Each entry is seen in its own place.
pub proof fn entry_views_in_place(entries: Seq<(String, ConfigNode)>)
    ensures
        entry_views(entries).len() == entries.len(),
        forall|i: int|
            0 <= i < entries.len() ==> #[trigger] entry_views(entries)[i] == (
                entries[i].0@,
                entries[i].1.view(),
            ),
    decreases entries.len(),
{
    if entries.len() > 0 {
        entry_views_in_place(entries.drop_last());
        assert forall|i: int| 0 <= i < entries.len() implies #[trigger] entry_views(entries)[i] == (
            entries[i].0@,
            entries[i].1.view(),
        ) by {
            if i < entries.len() - 1 {
                assert(entry_views(entries.drop_last())[i] == (
                    entries.drop_last()[i].0@,
                    entries.drop_last()[i].1.view(),
                ));
            }
        }
    }
}

/// The whole of a TOML value as a node.
fn read_toml(value: toml::Value) -> (node: ConfigNode)
    ensures
        node@ == toml_tree(value),
    decreases toml_tree(value),
{
    match open_toml(value) {
        OpenedValue::Table(entries) => {
            let ghost children = toml_tree(value)->Table_0;
            let mut rest: Vec<(String, toml::Value)> = entries;
            let mut nodes: Vec<(String, ConfigNode)> = Vec::new();
            let n: usize = rest.len();
            while nodes.len() < n
                invariant
                    nodes@.len() <= n,
                    n == children.len(),
                    rest@.len() == n - nodes@.len(),
                    toml_tree(value) == ConfigView::Table(children),
                    forall|i: int|
                        0 <= i < rest@.len() ==> (#[trigger] rest@[i]).0@ == children[nodes@.len()
                            + i].0 && toml_tree(rest@[i].1) == children[nodes@.len() + i].1,
                    entry_views(nodes@) == children.take(nodes@.len() as int),
                decreases n - nodes@.len(),
            {
                let ghost at = nodes@.len() as int;
                let ghost before = rest@;
                let ghost nodes_before = nodes@;
                let (key, inner) = rest.remove(0);
                assert(before[0].0@ == children[at].0);
                proof {
                    assert(decreases_to!(toml_tree(value) => toml_tree(value)->Table_0));
                    assert(decreases_to!(children => children[at]));
                    assert(decreases_to!(children[at] => children[at].1));
                }
                let node = read_toml(inner);
                nodes.push((key, node));
                proof {
                    assert(nodes@.drop_last() =~= nodes_before);
                    assert(entry_views(nodes@) =~= children.take(at + 1));
                    assert forall|i: int| 0 <= i < rest@.len() implies (#[trigger] rest@[i]).0@
                        == children[nodes@.len() + i].0 && toml_tree(rest@[i].1)
                        == children[nodes@.len() + i].1 by {
                        assert(rest@[i] == before[i + 1]);
                    }
                }
            }
            assert(children.take(n as int) =~= children);
            ConfigNode::Table(nodes)
        },
        OpenedValue::Float(number) => ConfigNode::Float(number),
        OpenedValue::Integer(number) => ConfigNode::Integer(number),
        OpenedValue::Other => ConfigNode::Other,
    }
}

/// The key of an entry below a prefix. Below no prefix the key stands alone.
pub open spec fn path_below(prefix: Seq<char>, key: Seq<char>) -> Seq<char> {
    if prefix.len() == 0 {
        key
    } else {
        prefix + "."@ + key
    }
}

/// The numbers of a document with their dotted keys, in the order of the document.
pub open spec fn flattened(tree: ConfigView, prefix: Seq<char>) -> Seq<(Seq<char>, u64)>
    decreases tree,
{
    match tree {
        ConfigView::Table(entries) => flattened_entries(entries, prefix),
        ConfigView::Float(number) => seq![(prefix, number)],
        ConfigView::Integer(number) => seq![(prefix, double::nearest(number as int) as u64)],
        ConfigView::Other => Seq::empty(),
    }
}

pub open spec fn flattened_entries(
    entries: Seq<(Seq<char>, ConfigView)>,
    prefix: Seq<char>,
) -> Seq<(Seq<char>, u64)>
    decreases entries,
{
    if entries.len() == 0 {
        Seq::empty()
    } else {
        flattened_entries(entries.drop_last(), prefix) + flattened(
            entries.last().1,
            path_below(prefix, entries.last().0),
        )
    }
}

/// The values of a snapshot. Of two values under one key the later counts.
pub open spec fn holding(pairs: Seq<(Seq<char>, u64)>) -> CatalogView<u64> {
    CatalogView {
        names: Seq::new(pairs.len(), |i: int| pairs[i].0),
        items: Seq::new(pairs.len(), |i: int| pairs[i].1),
    }
}

/// The content of a file, or why it could not be read, as text.
pub open spec fn content_of(content: Result<String, String>) -> Result<Seq<char>, Seq<char>> {
    match content {
        Ok(content) => Ok(content@),
        Err(reason) => Err(reason@),
    }
}

/// The numbers in a document at a path, or why there are none.
pub open spec fn read_document(path: Seq<char>, content: Result<Seq<char>, Seq<char>>) -> Result<
    CatalogView<u64>,
    Seq<char>,
> {
    match content {
        Err(reason) => Err("Erro lendo arquivo '"@ + path + "': "@ + reason),
        Ok(content) => match toml_document(content) {
            Ok(tree) => Ok(holding(flattened(tree, Seq::empty()))),
            Err(reason) => Err("Erro parseando TOML '"@ + path + "': "@ + reason),
        },
    }
}

/// Numbers under dotted keys.
pub struct Snapshot {
    values: Catalog<u64>,
}

impl Snapshot {
    pub closed spec fn view(&self) -> CatalogView<u64> {
        self.values@
    }

    fn collect(node: &ConfigNode, prefix: &str, out: &mut Catalog<u64>)
        requires
            old(out)@.wf(),
        ensures
            final(out)@.wf(),
            final(out)@ == extended(old(out)@, flattened(node@, prefix@)),
        decreases node,
    {
        let ghost start = out@;
        match node {
            ConfigNode::Table(entries) => {
                let ghost children = entry_views(entries@);
                let mut i: usize = 0;
                proof {
                    entry_views_in_place(entries@);
                    assert(children.take(0) =~= Seq::empty());
                    assert(out@ =~= extended(start, flattened_entries(children.take(0), prefix@)));
                }
                while i < entries.len()
                    invariant
                        i <= entries@.len(),
                        *node == ConfigNode::Table(*entries),
                        children == entry_views(entries@),
                        children.len() == entries@.len(),
                        out@.wf(),
                        out@ == extended(
                            start,
                            flattened_entries(children.take(i as int), prefix@),
                        ),
                    decreases entries@.len() - i,
                {
                    let key = &entries[i].0;
                    let path: String = if prefix.is_empty() {
                        key.clone()
                    } else {
                        text::dotted(prefix, key.as_str())
                    };
                    proof {
                        entry_views_in_place(entries@);
                        assert(children[i as int] == (key@, entries@[i as int].1@));
                        assert(decreases_to!(*node => (*node)->Table_0));
                        assert(decreases_to!(entries => entries@));
                        assert(decreases_to!(entries@ => entries@[i as int]));
                        assert(decreases_to!(entries@[i as int] => entries@[i as int].1));
                    }
                    Snapshot::collect(&entries[i].1, path.as_str(), out);
                    proof {
                        let before = flattened_entries(children.take(i as int), prefix@);
                        let added = flattened(children[i as int].1, path@);
                        let longer = children.take(i + 1);
                        assert(longer.drop_last() =~= children.take(i as int));
                        assert(flattened_entries(longer, prefix@) == before + added);
                        assert(out@ =~= extended(start, before + added));
                    }
                    i = i + 1;
                }
                assert(children.take(i as int) =~= children);
            },
            ConfigNode::Float(number) => {
                out.offer(prefix, *number);
                assert(out@ =~= extended(start, flattened(node@, prefix@)));
            },
            ConfigNode::Integer(number) => {
                out.offer(prefix, double::from_integer(*number));
                assert(out@ =~= extended(start, flattened(node@, prefix@)));
            },
            ConfigNode::Other => {
                assert(out@ =~= extended(start, flattened(node@, prefix@)));
            },
        }
    }

    /// The numbers of a document under their dotted keys.
    pub fn flatten(root: &ConfigNode) -> (snapshot: Snapshot)
        ensures
            snapshot@ == holding(flattened(root@, Seq::empty())),
    {
        let mut values: Catalog<u64> = Catalog::new();
        proof {
            reveal_strlit("");
            assert(""@ =~= Seq::empty());
        }
        Snapshot::collect(root, "", &mut values);
        assert(values@ =~= holding(flattened(root@, Seq::empty())));
        Snapshot { values }
    }

    /// Reads a document of which the content, or the reason why it could not be read, is at hand.
    pub fn from_file(path: &str, content: Result<String, String>) -> (snapshot: Result<
        Snapshot,
        String,
    >)
        ensures
            match (snapshot, read_document(path@, content_of(content))) {
                (Ok(snapshot), Ok(values)) => snapshot@ == values,
                (Err(message), Err(wanted)) => message@ == wanted,
                _ => false,
            },
    {
        match content {
            Err(reason) => {
                let mut message: String = text::framed("Erro lendo arquivo '", path, "': ");
                message.append(reason.as_str());
                Err(message)
            },
            Ok(content) => match parse_toml(content.as_str()) {
                Ok(value) => {
                    let root = read_toml(value);
                    Ok(Snapshot::flatten(&root))
                },
                Err(reason) => {
                    let mut message: String = text::framed("Erro parseando TOML '", path, "': ");
                    message.append(reason.as_str());
                    Err(message)
                },
            },
        }
    }

    /// A snapshot of given values.
    pub fn from_pairs(pairs: &[(&str, u64)]) -> (snapshot: Snapshot)
        ensures
            snapshot@ == holding(Seq::new(pairs@.len(), |i: int| (pairs@[i].0@, pairs@[i].1))),
    {
        let mut values: Catalog<u64> = Catalog::new();
        let mut i: usize = 0;
        let ghost all = Seq::new(pairs@.len(), |i: int| (pairs@[i].0@, pairs@[i].1));
        assert(values@ =~= holding(all.take(0)));
        while i < pairs.len()
            invariant
                i <= pairs@.len(),
                all == Seq::new(pairs@.len(), |i: int| (pairs@[i].0@, pairs@[i].1)),
                values@.wf(),
                values@ == holding(all.take(i as int)),
            decreases pairs@.len() - i,
        {
            values.offer(pairs[i].0, pairs[i].1);
            i = i + 1;
            assert(values@ =~= holding(all.take(i as int)));
        }
        assert(all.take(i as int) =~= all);
        Snapshot { values }
    }

    /// The number under a key.
    pub fn get(&self, key: &str) -> (value: Option<u64>)
        ensures
            value == self@.found(key@),
    {
        match self.values.find(key) {
            Some(value) => Some(*value),
            None => None,
        }
    }

    /// The number under a key, and zero where there is none.
    pub fn get_or_zero(&self, key: &str) -> (value: u64)
        ensures
            value == seed(self@, key@),
    {
        match self.get(key) {
            Some(value) => value,
            None => double::ZERO,
        }
    }
}

/// The value with which a configured signal starts.
pub open spec fn seed(config: CatalogView<u64>, key: Seq<char>) -> u64 {
    match config.found(key) {
        Some(value) => value,
        None => double::ZERO,
    }
}

/// The entries of a catalog followed by more of them.
pub open spec fn extended(
    start: CatalogView<u64>,
    pairs: Seq<(Seq<char>, u64)>,
) -> CatalogView<u64> {
    CatalogView {
        names: start.names + holding(pairs).names,
        items: start.items + holding(pairs).items,
    }
}

} // verus!
