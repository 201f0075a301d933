//! The histories of a shell, by name.
use crate::api::HistoryProvider;
use crate::history::History;
use crate::item::LocalHistoryItem;
use crate::text::{texts, to_chars};
use vstd::prelude::*;

verus! {

/// `a` comes before `b` in the order of texts: at the first place where they differ it has the smaller
/// character, or it ends there.
pub open spec fn precedes(a: Seq<char>, b: Seq<char>) -> bool
    decreases a.len(),
{
    if b.len() == 0 {
        false
    } else if a.len() == 0 {
        true
    } else if a[0] == b[0] {
        precedes(a.drop_first(), b.drop_first())
    } else {
        a[0] < b[0]
    }
}

/// Of two texts at most one comes before the other, and of two different ones exactly one does.
proof fn lemma_order_is_total(a: Seq<char>, b: Seq<char>)
    ensures
        a == b <==> !precedes(a, b) && !precedes(b, a),
        !(precedes(a, b) && precedes(b, a)),
    decreases a.len(),
{
    if a.len() == 0 || b.len() == 0 {
        if a.len() == b.len() {
            assert(a =~= b);
        }
    } else if a[0] == b[0] {
        lemma_order_is_total(a.drop_first(), b.drop_first());
        if a.drop_first() == b.drop_first() {
            assert(a =~= seq![a[0]] + a.drop_first());
            assert(b =~= seq![b[0]] + b.drop_first());
        }
    }
}

/// What comes before a text comes before those that it comes before.
proof fn lemma_order_is_transitive(a: Seq<char>, b: Seq<char>, c: Seq<char>)
    requires
        precedes(a, b),
        precedes(b, c),
    ensures
        precedes(a, c),
    decreases a.len(),
{
    if a.len() > 0 && a[0] == b[0] && b[0] == c[0] {
        lemma_order_is_transitive(a.drop_first(), b.drop_first(), c.drop_first());
    }
}

/// Returns whether `a` comes before `b`.
fn text_precedes(a: &str, b: &str) -> (yes: bool)
    ensures
        yes == precedes(a@, b@),
{
    let left = to_chars(a);
    let right = to_chars(b);
    let mut i: usize = 0;
    assert(left@.skip(0) =~= left@);
    assert(right@.skip(0) =~= right@);
    while i < left.len() && i < right.len()
        invariant
            left@ == a@,
            right@ == b@,
            i <= left@.len(),
            i <= right@.len(),
            precedes(left@, right@) == precedes(left@.skip(i as int), right@.skip(i as int)),
        decreases left@.len() - i,
    {
        assert(left@.skip(i as int)[0] == left@[i as int]);
        assert(right@.skip(i as int)[0] == right@[i as int]);
        if left[i] != right[i] {
            return left[i] < right[i];
        }
        assert(left@.skip(i as int).drop_first() =~= left@.skip(i + 1));
        assert(right@.skip(i as int).drop_first() =~= right@.skip(i + 1));
        i = i + 1;
    }
    i < right.len()
}

/// The texts are in order, and none stands there twice.
pub open spec fn in_order(names: Seq<Seq<char>>) -> bool {
    forall|i: int, j: int|
        0 <= i < j < names.len() ==> precedes(#[trigger] names[i], #[trigger] names[j])
}

/// What stands under each name.
pub open spec fn entries<T>(names: Seq<Seq<char>>, values: Seq<T>) -> Map<Seq<char>, T> {
    Map::new(
        |name: Seq<char>| names.contains(name),
        |name: Seq<char>| values[names.index_of(name)],
    )
}

/// Under each name stands the value at its place.
proof fn lemma_entry<T>(names: Seq<Seq<char>>, values: Seq<T>, i: int)
    requires
        in_order(names),
        0 <= i < names.len(),
    ensures
        names.index_of(names[i]) == i,
        entries(names, values).contains_key(names[i]),
        entries(names, values)[names[i]] == values[i],
{
    let k = names.index_of(names[i]);
    assert(names.contains(names[i]));
    assert(0 <= k < names.len() && names[k] == names[i]);
    lemma_order_is_total(names[i], names[i]);
    if k < i {
        assert(precedes(names[k], names[i]));
    } else if i < k {
        assert(precedes(names[i], names[k]));
    }
}

/// Replacing the value at a place replaces what stands under its name.
proof fn lemma_value_replaced<T>(names: Seq<Seq<char>>, values: Seq<T>, i: int, value: T)
    requires
        in_order(names),
        names.len() == values.len(),
        0 <= i < names.len(),
    ensures
        entries(names, values.update(i, value)) == entries(names, values).insert(names[i], value),
{
    lemma_entry(names, values, i);
    lemma_entry(names, values.update(i, value), i);
    let left = entries(names, values.update(i, value));
    let right = entries(names, values).insert(names[i], value);
    assert forall|name: Seq<char>| left.contains_key(name) implies left[name] == right[name] by {
        let k = names.index_of(name);
        assert(0 <= k < names.len() && names[k] == name);
    }
    assert(left =~= right);
}

/// A new name, at its place in the order, gets a value, and the others keep theirs.
proof fn lemma_name_inserted<T>(
    names: Seq<Seq<char>>,
    values: Seq<T>,
    i: int,
    name: Seq<char>,
    value: T,
)
    requires
        in_order(names),
        names.len() == values.len(),
        0 <= i <= names.len(),
        forall|k: int| 0 <= k < i ==> precedes(#[trigger] names[k], name),
        forall|k: int| i <= k < names.len() ==> precedes(name, #[trigger] names[k]),
    ensures
        in_order(names.insert(i, name)),
        entries(names.insert(i, name), values.insert(i, value)) == entries(names, values).insert(
            name,
            value,
        ),
{
    let more = names.insert(i, name);
    let more_values = values.insert(i, value);
    assert(in_order(more));
    let left = entries(more, more_values);
    let right = entries(names, values).insert(name, value);
    assert(more[i] == name);
    lemma_entry(more, more_values, i);
    assert forall|n: Seq<char>| #![trigger left.contains_key(n)]
        left.contains_key(n) == right.contains_key(n) && (left.contains_key(n) ==> left[n]
            == right[n]) by {
        if n != name {
            if names.contains(n) {
                let k = names.index_of(n);
                assert(0 <= k < names.len() && names[k] == n);
                let m = if k < i {
                    k
                } else {
                    k + 1
                };
                assert(more[m] == n);
                lemma_entry(names, values, k);
                lemma_entry(more, more_values, m);
            }
            if more.contains(n) {
                let m = more.index_of(n);
                assert(0 <= m < more.len() && more[m] == n);
                let k = if m < i {
                    m
                } else {
                    m - 1
                };
                assert(names[k] == n);
            }
        }
    }
    assert(left =~= right);
}

/// The histories of a shell, each under its name, in the order of the names.
pub struct Histories<P: HistoryProvider> {
    names: Vec<String>,
    histories: Vec<History<P>>,
}

impl<P: HistoryProvider> View for Histories<P> {
    type V = Map<Seq<char>, History<P>>;

    closed spec fn view(&self) -> Map<Seq<char>, History<P>> {
        entries(texts(self.names@), self.histories@)
    }
}

impl<P: HistoryProvider> Histories<P> {
    /// There is one history for each name, and the names are in order.
    pub closed spec fn wf(self) -> bool {
        self.names@.len() == self.histories@.len() && in_order(texts(self.names@))
    }

    /// No histories.
    pub fn new() -> (out: Self)
        ensures
            out.wf(),
            out@ == Map::<Seq<char>, History<P>>::empty(),
    {
        let out = Histories { names: Vec::new(), histories: Vec::new() };
        assert(out@ =~= Map::empty());
        out
    }
}

/// Each history goes by the name that it stands under.
pub open spec fn go_by_their_names<P: HistoryProvider>(
    histories: Map<Seq<char>, History<P>>,
) -> bool {
    forall|name: Seq<char>| #[trigger]
        histories.contains_key(name) ==> histories[name].shared().spec_name() == name
}

/// Asked for a name, `make` gives a provider that goes by it.
pub open spec fn makes_named<P: HistoryProvider, F: FnOnce(&str) -> P>(make: F, name: &str) -> bool {
    forall|provider: P| #[trigger]
        call_ensures(make, (name,), provider) ==> provider.spec_name() == name@
}

/// Returns the history with the given name, creating it if necessary: `make` gives its provider.
pub fn with_name<'a, P: HistoryProvider, F: FnOnce(&str) -> P>(
    histories: &'a mut Histories<P>,
    name: &str,
    make: F,
) -> (history: &'a mut History<P>)
    requires
        old(histories).wf(),
        call_requires(make, (name,)),
    ensures
        if old(histories)@.contains_key(name@) {
            *history == old(histories)@[name@]
        } else {
            &&& history.local_items() == Seq::<LocalHistoryItem>::empty()
            &&& call_ensures(make, (name,), history.shared())
        },
        go_by_their_names(old(histories)@) && makes_named(make, name) ==> history.shared().spec_name()
            == name@,
        final(histories)@ == old(histories)@.insert(name@, *final(history)),
        final(histories).wf(),
{
    let ghost names = texts(histories.names@);
    let ghost values = histories.histories@;
    let mut i: usize = 0;
    while i < histories.names.len() && text_precedes(histories.names[i].as_str(), name)
        invariant
            *histories == *old(histories),
            names == texts(histories.names@),
            i <= names.len(),
            forall|k: int| 0 <= k < i ==> precedes(#[trigger] names[k], name@),
        decreases names.len() - i,
    {
        assert(names[i as int] == histories.names@[i as int]@);
        i = i + 1;
    }
    if i < histories.names.len() && histories.names[i] == name.to_owned() {
        proof {
            assert(names[i as int] == name@);
            lemma_entry(names, values, i as int);
            assert forall|value: History<P>|
                #[trigger] entries(names, values.update(i as int, value)) == entries(
                    names,
                    values,
                ).insert(name@, value) by {
                lemma_value_replaced(names, values, i as int, value);
            }
        }
        &mut histories.histories[i]
    } else {
        proof {
            assert forall|k: int| i <= k < names.len() implies precedes(
                name@,
                #[trigger] names[k],
            ) by {
                assert(names[i as int] == histories.names@[i as int]@);
                lemma_order_is_total(names[i as int], name@);
                if k > i {
                    lemma_order_is_transitive(name@, names[i as int], names[k]);
                }
            }
            if names.contains(name@) {
                let k = names.index_of(name@);
                assert(0 <= k < names.len() && names[k] == name@);
                lemma_order_is_total(name@, name@);
            }
        }
        let provider = make(name);
        let history = History::new(provider);
        proof {
            assert forall|value: History<P>| #[trigger]
                entries(
                    names.insert(i as int, name@),
                    values.insert(i as int, history).update(i as int, value),
                ) == entries(names, values).insert(name@, value) by {
                lemma_name_inserted(names, values, i as int, name@, history);
                lemma_value_replaced(
                    names.insert(i as int, name@),
                    values.insert(i as int, history),
                    i as int,
                    value,
                );
                assert(entries(names, values).insert(name@, history).insert(name@, value)
                    =~= entries(names, values).insert(name@, value));
            }
            lemma_name_inserted(names, values, i as int, name@, history);
        }
        histories.names.insert(i, name.to_owned());
        histories.histories.insert(i, history);
        assert(texts(histories.names@) =~= names.insert(i as int, name@));
        &mut histories.histories[i]
    }
}

/// Saves all histories.
pub fn save_all<P: HistoryProvider>(histories: &mut Histories<P>)
    requires
        old(histories).wf(),
    ensures
        final(histories).wf(),
        final(histories)@.dom() == old(histories)@.dom(),
        forall|name: Seq<char>| #[trigger]
            old(histories)@.contains_key(name) ==> history_saved(
                old(histories)@[name],
                final(histories)@[name],
            ),
{
    let ghost names = texts(histories.names@);
    let ghost values = histories.histories@;
    let mut i: usize = 0;
    while i < histories.histories.len()
        invariant
            i <= histories.histories@.len(),
            names == texts(histories.names@),
            values.len() == histories.histories@.len(),
            forall|k: int|
                0 <= k < i ==> history_saved(values[k], #[trigger] histories.histories@[k]),
            forall|k: int| i <= k < values.len() ==> values[k] == #[trigger] histories.histories@[k],
        decreases values.len() - i,
    {
        let history = &mut histories.histories[i];
        history.save();
        i = i + 1;
    }
    assert(histories@.dom() =~= old(histories)@.dom());
    assert forall|name: Seq<char>| #[trigger] old(histories)@.contains_key(name) implies history_saved(
        old(histories)@[name],
        histories@[name],
    ) by {
        let k = names.index_of(name);
        assert(0 <= k < names.len() && names[k] == name);
        assert(history_saved(values[k], histories.histories@[k]));
    }
}

/// The history was saved: its provider was, and its local items stay.
pub open spec fn history_saved<P: HistoryProvider>(before: History<P>, after: History<P>) -> bool {
    P::saved(&before.shared(), &after.shared()) && after.local_items() == before.local_items()
}

/// Asking for a name a second time gives the history as it was left, whatever happens to other names.
pub proof fn a_name_keeps_its_history<P: HistoryProvider>(
    before: Map<Seq<char>, History<P>>,
    name: Seq<char>,
    left: History<P>,
    other: Seq<char>,
    other_left: History<P>,
)
    requires
        other != name,
    ensures
        before.insert(name, left).insert(other, other_left).contains_key(name),
        before.insert(name, left).insert(other, other_left)[name] == left,
{
}

/// The history that is found or made under a name goes by that name, if providers are made for the names
/// that are asked for; and as long as it keeps its name, so do all histories.
pub proof fn a_history_goes_by_its_name<P: HistoryProvider, F: FnOnce(&str) -> P>(
    before: Map<Seq<char>, History<P>>,
    name: &str,
    make: F,
    history: History<P>,
    left: History<P>,
)
    requires
        go_by_their_names(before),
        makes_named(make, name),
        if before.contains_key(name@) {
            history == before[name@]
        } else {
            call_ensures(make, (name,), history.shared())
        },
        left.shared().spec_name() == history.shared().spec_name(),
    ensures
        history.shared().spec_name() == name@,
        go_by_their_names(before.insert(name@, left)),
{
}

/// Names are in the order of their characters: the smaller one counts at the first place where they differ, and
/// a name comes before those that it begins.
pub proof fn names_are_in_the_order_of_their_characters(
    common: Seq<char>,
    a: char,
    b: char,
    rest_a: Seq<char>,
    rest_b: Seq<char>,
)
    requires
        a < b,
    ensures
        precedes(common + seq![a] + rest_a, common + seq![b] + rest_b),
        !precedes(common + seq![b] + rest_b, common + seq![a] + rest_a),
        precedes(common, common + seq![a] + rest_a),
        !precedes(common + seq![a] + rest_a, common),
        !precedes(common, common),
    decreases common.len(),
{
    let left = common + seq![a] + rest_a;
    let right = common + seq![b] + rest_b;
    if common.len() > 0 {
        let less = common.drop_first();
        names_are_in_the_order_of_their_characters(less, a, b, rest_a, rest_b);
        assert(left.drop_first() =~= less + seq![a] + rest_a);
        assert(right.drop_first() =~= less + seq![b] + rest_b);
    }
}

/// Saving a history has its provider saved, and does not touch its local items.
pub proof fn a_saved_history_keeps_its_local_items<P: HistoryProvider>(
    before: History<P>,
    after: History<P>,
)
    requires
        history_saved(before, after),
    ensures
        P::saved(&before.shared(), &after.shared()),
        after.local_items() == before.local_items(),
{
}

} // verus!
