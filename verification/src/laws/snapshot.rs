//! Laws of initial conditions.
use crate::catalog::CatalogView;
use crate::double;
use crate::snapshot;
use crate::snapshot::ConfigView;
use crate::text;
use vstd::prelude::*;

verus! {

/// What a document holds at a path, which names an entry of a table at each level by its place.
pub open spec fn node_at(tree: ConfigView, path: Seq<int>) -> Option<ConfigView>
    decreases path.len(),
{
    if path.len() == 0 {
        Some(tree)
    } else {
        match tree {
            ConfigView::Table(entries) => if 0 <= path[0] < entries.len() {
                node_at(entries[path[0]].1, path.drop_first())
            } else {
                None
            },
            _ => None,
        }
    }
}

/// The keys along a path with dots between them, below a prefix. Nothing, and no dot, stands before
/// the first of them that is not empty.
pub open spec fn dotted_below(prefix: Seq<char>, tree: ConfigView, path: Seq<int>) -> Seq<char>
    decreases path.len(),
{
    if path.len() == 0 {
        prefix
    } else {
        match tree {
            ConfigView::Table(entries) => {
                let key = entries[path[0]].0;
                dotted_below(
                    if prefix.len() == 0 {
                        key
                    } else {
                        prefix + seq!['.'] + key
                    },
                    entries[path[0]].1,
                    path.drop_first(),
                )
            },
            _ => prefix,
        }
    }
}

/// Whether the node is this number: a float by its bits, an integer as the double nearest to it.
pub open spec fn is_number(node: ConfigView, x: u64) -> bool {
    match node {
        ConfigView::Float(bits) => x == bits,
        ConfigView::Integer(i) => x == double::nearest(i as int),
        _ => false,
    }
}

/// Whether a float or an integer stands at the path.
pub open spec fn leads_to_a_number(tree: ConfigView, path: Seq<int>) -> bool {
    node_at(tree, path) matches Some(node) && (node is Float || node is Integer)
}

proof fn entries_are_in_a_row(entries: Seq<(Seq<char>, ConfigView)>, prefix: Seq<char>, i: int) -> (at:
    int)
    requires
        0 <= i < entries.len(),
    ensures
        ({
            let part = snapshot::flattened(
                entries[i].1,
                snapshot::path_below(prefix, entries[i].0),
            );
            let row = snapshot::flattened_entries(entries, prefix);
            &&& 0 <= at
            &&& at + part.len() <= row.len()
            &&& forall|p: int| 0 <= p < part.len() ==> #[trigger] part[p] == row[at + p]
        }),
    decreases entries.len(),
{
    let shorter = entries.drop_last();
    if i == entries.len() - 1 {
        snapshot::flattened_entries(shorter, prefix).len() as int
    } else {
        assert(shorter[i] == entries[i]);
        entries_are_in_a_row(shorter, prefix, i)
    }
}

/// Every number of a document is kept, under the keys that lead to it.
pub proof fn every_number_is_kept(tree: ConfigView, prefix: Seq<char>, path: Seq<int>, x: u64) -> (at:
    int)
    requires
        node_at(tree, path) matches Some(node) && is_number(node, x),
    ensures
        0 <= at < snapshot::flattened(tree, prefix).len(),
        snapshot::flattened(tree, prefix)[at] == (dotted_below(prefix, tree, path), x),
    decreases path.len(),
{
    if path.len() == 0 {
        if let ConfigView::Integer(i) = tree {
            nearest_fits(i as int);
        }
        0
    } else {
        reveal_strlit(".");
        let entries = tree->Table_0;
        let i = path[0];
        let below = snapshot::path_below(prefix, entries[i].0);
        assert("."@ =~= seq!['.']);
        let inner = every_number_is_kept(entries[i].1, below, path.drop_first(), x);
        let start = entries_are_in_a_row(entries, prefix, i);
        start + inner
    }
}

/// Nothing is invented: every value of a snapshot is a number of the document, and its key is made of
/// the keys that lead to it.
pub proof fn every_value_is_a_number(tree: ConfigView, prefix: Seq<char>, at: int) -> (path: Seq<int>)
    requires
        0 <= at < snapshot::flattened(tree, prefix).len(),
    ensures
        node_at(tree, path) matches Some(node) && is_number(
            node,
            snapshot::flattened(tree, prefix)[at].1,
        ),
        snapshot::flattened(tree, prefix)[at].0 == dotted_below(prefix, tree, path),
    decreases tree,
{
    match tree {
        ConfigView::Table(entries) => {
            every_value_is_a_number_of_an_entry(tree, entries, prefix, at)
        },
        _ => {
            if let ConfigView::Integer(i) = tree {
                nearest_fits(i as int);
            }
            Seq::empty()
        },
    }
}

proof fn every_value_is_a_number_of_an_entry(
    tree: ConfigView,
    entries: Seq<(Seq<char>, ConfigView)>,
    prefix: Seq<char>,
    at: int,
) -> (path: Seq<int>)
    requires
        tree == ConfigView::Table(entries),
        0 <= at < snapshot::flattened_entries(entries, prefix).len(),
    ensures
        node_at(tree, path) matches Some(node) && is_number(
            node,
            snapshot::flattened_entries(entries, prefix)[at].1,
        ),
        snapshot::flattened_entries(entries, prefix)[at].0 == dotted_below(prefix, tree, path),
        path.len() > 0,
        0 <= path[0] < entries.len(),
    decreases entries,
{
    let shorter = entries.drop_last();
    let earlier = snapshot::flattened_entries(shorter, prefix);
    if at < earlier.len() {
        let path = every_value_is_a_number_of_an_entry(
            ConfigView::Table(shorter),
            shorter,
            prefix,
            at,
        );
        assert(shorter[path[0]] == entries[path[0]]);
        path
    } else {
        let last = entries.last();
        let below = snapshot::path_below(prefix, last.0);
        reveal_strlit(".");
        assert("."@ =~= seq!['.']);
        assert(decreases_to!(entries => entries[entries.len() - 1]));
        assert(decreases_to!(entries[entries.len() - 1] => entries[entries.len() - 1].1));
        let inner = every_value_is_a_number(last.1, below, at - earlier.len());
        let path = seq![entries.len() - 1] + inner;
        assert(path.drop_first() =~= inner);
        path
    }
}

/// An integer of sixty-four bits has a double.
proof fn nearest_fits(i: int)
    requires
        i64::MIN <= i <= i64::MAX,
    ensures
        0 <= double::nearest(i) <= u64::MAX,
{
    double::nearest_is_a_pattern(i);
}

/// Of the values under one key the last counts, and a key that has none gives nothing.
pub proof fn the_last_value_counts(pairs: Seq<(Seq<char>, u64)>, key: Seq<char>)
    requires
        pairs.len() <= usize::MAX,
    ensures
        match snapshot::holding(pairs).found(key) {
            Some(x) => exists|p: int|
                {
                    &&& 0 <= p < pairs.len()
                    &&& #[trigger] pairs[p] == (key, x)
                    &&& forall|q: int| p < q < pairs.len() ==> (#[trigger] pairs[q]).0 != key
                },
            None => forall|p: int| 0 <= p < pairs.len() ==> (#[trigger] pairs[p]).0 != key,
        },
{
    let names = snapshot::holding(pairs).names;
    text::last_position_is_last(names, key);
    match text::last_position(names, key) {
        Some(p) => {
            assert(pairs[p as int].0 == names[p as int]);
            assert forall|q: int| p < q < pairs.len() implies (#[trigger] pairs[q]).0 != key by {
                assert(names[q] == pairs[q].0);
            }
        },
        None => {
            assert forall|p: int| 0 <= p < pairs.len() implies (#[trigger] pairs[p]).0 != key by {
                assert(names[p] == pairs[p].0);
                assert(names.contains(names[p]));
            }
        },
    }
}

/// A number that is alone under its key is read back as it stands in the document: a float by the same
/// bits.
pub proof fn a_number_is_read_back(tree: ConfigView, path: Seq<int>, x: u64)
    requires
        node_at(tree, path) matches Some(node) && is_number(node, x),
        forall|other: Seq<int>|
            #[trigger] leads_to_a_number(tree, other) && dotted_below(Seq::empty(), tree, other) == dotted_below(
                Seq::empty(),
                tree,
                path,
            ) ==> other == path,
        snapshot::flattened(tree, Seq::empty()).len() <= usize::MAX,
    ensures
        snapshot::holding(snapshot::flattened(tree, Seq::empty())).found(
            dotted_below(Seq::empty(), tree, path),
        ) == Some(x),
{
    let pairs = snapshot::flattened(tree, Seq::empty());
    let key = dotted_below(Seq::empty(), tree, path);
    let at = every_number_is_kept(tree, Seq::empty(), path, x);
    the_last_value_counts(pairs, key);
    assert(pairs[at].0 == key);
    let found = snapshot::holding(pairs).found(key);
    assert(found is Some);
    let p = choose|p: int|
        {
            &&& 0 <= p < pairs.len()
            &&& #[trigger] pairs[p] == (key, found->0)
            &&& forall|q: int| p < q < pairs.len() ==> (#[trigger] pairs[q]).0 != key
        };
    let other = every_value_is_a_number(tree, Seq::empty(), p);
    assert(leads_to_a_number(tree, other));
    assert(other == path);
}

/// A float under one key is read back by its bits, whatever they are.
pub proof fn a_float_is_read_back(key: Seq<char>, x: u64)
    ensures
        snapshot::holding(
            snapshot::flattened(
                ConfigView::Table(seq![(key, ConfigView::Float(x))]),
                Seq::empty(),
            ),
        ).found(key) == Some(x),
{
    let entries = seq![(key, ConfigView::Float(x))];
    let tree = ConfigView::Table(entries);
    let pairs = snapshot::flattened(tree, Seq::empty());
    assert(entries.drop_last() =~= Seq::empty());
    assert(snapshot::flattened_entries(entries.drop_last(), Seq::empty()) =~= Seq::empty());
    reveal_with_fuel(snapshot::flattened, 3);
    reveal_with_fuel(snapshot::flattened_entries, 3);
    assert(pairs =~= seq![(key, x)]);
    the_last_value_counts(pairs, key);
    assert(pairs[0].0 == key);
}

/// What is no number is left out.
pub proof fn other_entries_are_left_out(key: Seq<char>, prefix: Seq<char>)
    ensures
        snapshot::flattened(
            ConfigView::Table(seq![(key, ConfigView::Other)]),
            prefix,
        ).len() == 0,
{
    let entries = seq![(key, ConfigView::Other)];
    assert(entries.drop_last() =~= Seq::empty());
    reveal_with_fuel(snapshot::flattened, 3);
    reveal_with_fuel(snapshot::flattened_entries, 3);
    assert(snapshot::flattened_entries(entries.drop_last(), prefix) =~= Seq::empty());
}

/// A configured signal starts with the value under its key, and with zero where there is none.
pub proof fn a_signal_starts_with_its_value(config: CatalogView<u64>, key: Seq<char>)
    ensures
        config.found(key) matches Some(x) ==> snapshot::seed(config, key) == x,
        config.found(key) is None ==> snapshot::seed(config, key) == 0,
{
}

} // verus!
