//! Properties of the listing, the filter and the state machine, proved over
//! the specifications the executable functions meet.
use crate::app::{listed, quit_char, refiltered, requested, step, valid, AppView, Key};
use crate::entry::{
    by_name, lemma_by_name_strict, listing_of, name_bytes, plain, sorted_by_name, ObjectType,
    PathView,
};
use crate::filter::{
    annotate, annotated, by_score, filtered, fuzzy_match, outcomes_of, ranked,
};
use crate::order::{
    bytes_before, insert_in_order, lemma_bytes_before_total, lemma_insert_multiset,
    lemma_sort_multiset, lemma_sort_ordered, sort_in_order,
};
use crate::selection::{first_of, selection_settled};
use vstd::prelude::*;

verus! {

broadcast use vstd::seq_lib::group_to_multiset_ensures;

/// No two entries share a name, as in any directory.
pub open spec fn distinct_names(s: Seq<PathView>) -> bool {
    forall|i: int, j: int| 0 <= i < j < s.len() ==> s[i].value != s[j].value
}

proof fn lemma_insert_distinct(s: Seq<PathView>, x: PathView)
    requires
        distinct_names(s),
        forall|k: int| 0 <= k < s.len() ==> (#[trigger] s[k]).value != x.value,
    ensures
        distinct_names(insert_in_order(s, x, by_name())),
    decreases s.len(),
{
    let r = insert_in_order(s, x, by_name());
    if s.len() == 0 {
    } else if by_name()(x, s[0]) {
        assert forall|i: int, j: int| 0 <= i < j < r.len() implies r[i].value != r[j].value by {
            if i > 0 {
                assert(r[i] == s[i - 1] && r[j] == s[j - 1]);
            } else {
                assert(r[j] == s[j - 1]);
            }
        }
    } else {
        let t = s.drop_first();
        assert forall|k: int| 0 <= k < t.len() implies (#[trigger] t[k]).value != x.value by {
            assert(t[k] == s[k + 1]);
        }
        assert(distinct_names(t)) by {
            assert forall|i: int, j: int| 0 <= i < j < t.len() implies t[i].value != t[j].value by {
                assert(t[i] == s[i + 1] && t[j] == s[j + 1]);
            }
        }
        lemma_insert_distinct(t, x);
        lemma_insert_multiset(t, x, by_name());
        let u = insert_in_order(t, x, by_name());
        assert forall|i: int, j: int| 0 <= i < j < r.len() implies r[i].value != r[j].value by {
            if i > 0 {
                assert(r[i] == u[i - 1] && r[j] == u[j - 1]);
            } else {
                assert(r[j] == u[j - 1]);
                assert(u.to_multiset().count(u[j - 1]) > 0);
                if u[j - 1] != x {
                    assert(t.to_multiset().count(u[j - 1]) > 0);
                    let k = choose|k: int| 0 <= k < t.len() && t[k] == u[j - 1];
                    assert(s[k + 1] == t[k]);
                }
            }
        }
    }
}

proof fn lemma_sort_distinct(s: Seq<PathView>)
    requires
        distinct_names(s),
    ensures
        distinct_names(listing_of(s)),
    decreases s.len(),
{
    if s.len() > 0 {
        let init = s.drop_last();
        assert(distinct_names(init)) by {
            assert forall|i: int, j: int| 0 <= i < j < init.len() implies init[i].value
                != init[j].value by {
                assert(init[i] == s[i] && init[j] == s[j]);
            }
        }
        lemma_sort_distinct(init);
        lemma_sort_multiset(init, by_name());
        let t = sort_in_order(init, by_name());
        assert forall|k: int| 0 <= k < t.len() implies (#[trigger] t[k]).value != s.last().value by {
            assert(t.to_multiset().count(t[k]) > 0);
            assert(init.to_multiset().count(t[k]) > 0);
            let m = choose|m: int| 0 <= m < init.len() && init[m] == t[k];
            assert(init[m] == s[m]);
        }
        lemma_insert_distinct(t, s.last());
    }
}

/// A directory's listing holds exactly its entries, and, names being
/// distinct, lists them in strictly ascending byte order of name.
pub proof fn law_listing_ascending(entries: Seq<PathView>)
    requires
        distinct_names(entries),
    ensures
        listing_of(entries).to_multiset() == entries.to_multiset(),
        forall|i: int, j: int|
            0 <= i < j < listing_of(entries).len() ==> bytes_before(
                name_bytes(#[trigger] listing_of(entries)[i]),
                name_bytes(#[trigger] listing_of(entries)[j]),
            ),
{
    broadcast use vstd::utf8::encode_utf8_decode_utf8;

    let l = listing_of(entries);
    lemma_sort_multiset(entries, by_name());
    lemma_by_name_strict();
    lemma_sort_ordered(entries, by_name());
    lemma_sort_distinct(entries);
    assert forall|i: int, j: int| 0 <= i < j < l.len() implies bytes_before(
        name_bytes(#[trigger] l[i]),
        name_bytes(#[trigger] l[j]),
    ) by {
        assert(!by_name()(l[j], l[i]));
        assert(l[i].value != l[j].value);
        if name_bytes(l[i]) == name_bytes(l[j]) {
            assert(vstd::utf8::decode_utf8(name_bytes(l[i])) == l[i].value);
            assert(vstd::utf8::decode_utf8(name_bytes(l[j])) == l[j].value);
        }
        lemma_bytes_before_total(name_bytes(l[i]), name_bytes(l[j]));
    }
}

/// The state after typing each character of `keys` in turn.
pub open spec fn typed(s: AppView, keys: Seq<char>) -> AppView
    decreases keys.len(),
{
    if keys.len() == 0 {
        s
    } else {
        step(typed(s, keys.drop_last()), Key::Char(keys.last()))
    }
}

/// The characters of `keys` that go into the query: all but the quit key.
pub open spec fn kept(keys: Seq<char>) -> Seq<char>
    decreases keys.len(),
{
    if keys.len() == 0 {
        seq![]
    } else if keys.last() == quit_char() {
        kept(keys.drop_last())
    } else {
        kept(keys.drop_last()).push(keys.last())
    }
}

proof fn lemma_typed(s: AppView, keys: Seq<char>)
    requires
        s.items == filtered(s.query, s.listing),
    ensures
        typed(s, keys).listing == s.listing,
        typed(s, keys).query == s.query + kept(keys),
        typed(s, keys).items == filtered(typed(s, keys).query, s.listing),
    decreases keys.len(),
{
    if keys.len() == 0 {
        assert(s.query + kept(keys) =~= s.query);
    } else {
        lemma_typed(s, keys.drop_last());
        assert((s.query + kept(keys.drop_last())).push(keys.last()) =~= s.query + kept(
            keys.drop_last(),
        ).push(keys.last()));
    }
}

/// Filtering is idempotent: clearing and typing the same characters twice in
/// a row shows the same entries both times.
pub proof fn law_refilter_idempotent(s: AppView, keys: Seq<char>)
    ensures
        typed(step(s, Key::Esc), keys).items == typed(
            step(typed(step(s, Key::Esc), keys), Key::Esc),
            keys,
        ).items,
{
    let a = step(s, Key::Esc);
    lemma_typed(a, keys);
    let b = step(typed(a, keys), Key::Esc);
    lemma_typed(b, keys);
    assert(seq![] + kept(keys) =~= kept(keys));
}

/// Every entry `longer` matches, `query` matches too.
pub open spec fn narrows(query: Seq<char>, longer: Seq<char>, entries: Seq<PathView>) -> bool {
    forall|i: int|
        0 <= i < entries.len() && (#[trigger] fuzzy_match(longer, entries[i].value)) is Some
            ==> fuzzy_match(query, entries[i].value) is Some
}

proof fn lemma_annotated_members(
    entries: Seq<PathView>,
    outcomes: Seq<Option<(u32, Seq<u32>)>>,
    n: nat,
)
    requires
        n <= entries.len(),
        n <= outcomes.len(),
    ensures
        forall|m: (PathView, u32)|
            #[trigger] annotated(entries, outcomes, n).contains(m) ==> exists|i: int|
                0 <= i < n && outcomes[i] is Some && plain(m.0) == plain(entries[i]),
        forall|i: int|
            0 <= i < n && outcomes[i] is Some ==> annotated(entries, outcomes, n).contains(
                annotate(entries[i], outcomes[i]->Some_0.0, outcomes[i]->Some_0.1),
            ),
    decreases n,
{
    if n > 0 {
        lemma_annotated_members(entries, outcomes, (n - 1) as nat);
        let rest = annotated(entries, outcomes, (n - 1) as nat);
        let a = annotated(entries, outcomes, n);
        let j = n - 1;
        assert forall|m: (PathView, u32)| #[trigger] a.contains(m) implies exists|i: int|
            0 <= i < n && outcomes[i] is Some && plain(m.0) == plain(entries[i]) by {
            if outcomes[j] is Some && m == a.last() {
                assert(plain(m.0) == plain(entries[j]));
            } else {
                let k = choose|k: int| 0 <= k < a.len() && a[k] == m;
                if outcomes[j] is Some {
                    assert(a == rest.push(a.last()));
                    assert(k < rest.len());
                    assert(rest[k] == m);
                }
                assert(rest.contains(m));
            }
        }
        assert forall|i: int| 0 <= i < n && outcomes[i] is Some implies a.contains(
            annotate(entries[i], outcomes[i]->Some_0.0, outcomes[i]->Some_0.1),
        ) by {
            let m = annotate(entries[i], outcomes[i]->Some_0.0, outcomes[i]->Some_0.1);
            if i == j {
                assert(a.last() == m);
                assert(a[a.len() - 1] == m);
            } else {
                assert(rest.contains(m));
                let k = choose|k: int| 0 <= k < rest.len() && rest[k] == m;
                if outcomes[j] is Some {
                    assert(a[k] == rest[k]);
                }
            }
        }
    }
}

proof fn lemma_ranked_members(entries: Seq<PathView>, outcomes: Seq<Option<(u32, Seq<u32>)>>)
    requires
        outcomes.len() == entries.len(),
    ensures
        forall|x: PathView|
            #[trigger] ranked(entries, outcomes).contains(x) ==> exists|i: int|
                0 <= i < entries.len() && outcomes[i] is Some && plain(x) == plain(entries[i]),
        forall|i: int|
            0 <= i < entries.len() && outcomes[i] is Some ==> exists|x: PathView|
                #[trigger] ranked(entries, outcomes).contains(x) && plain(x) == plain(entries[i]),
{
    let a = annotated(entries, outcomes, entries.len());
    let sorted = sort_in_order(a, by_score());
    let r = ranked(entries, outcomes);
    lemma_annotated_members(entries, outcomes, entries.len());
    lemma_sort_multiset(a, by_score());
    assert forall|x: PathView| #[trigger] r.contains(x) implies exists|i: int|
        0 <= i < entries.len() && outcomes[i] is Some && plain(x) == plain(entries[i]) by {
        let k = choose|k: int| 0 <= k < r.len() && r[k] == x;
        assert(r[k] == sorted[k].0);
        assert(sorted.to_multiset().count(sorted[k]) > 0);
        assert(a.contains(sorted[k]));
    }
    assert forall|i: int| 0 <= i < entries.len() && outcomes[i] is Some implies exists|x: PathView|
        #[trigger] r.contains(x) && plain(x) == plain(entries[i]) by {
        let m = annotate(entries[i], outcomes[i]->Some_0.0, outcomes[i]->Some_0.1);
        assert(a.contains(m));
        assert(a.to_multiset().count(m) > 0);
        assert(sorted.contains(m));
        let k = choose|k: int| 0 <= k < sorted.len() && sorted[k] == m;
        assert(r[k] == m.0);
        assert(r.contains(m.0));
    }
}

/// Narrowing: appending a character to the query never adds an entry. An
/// entry shown for the longer query is shown for the shorter one, as far as
/// the matcher itself accepts for the shorter query every name it accepts
/// for the longer one.
pub proof fn law_narrowing(query: Seq<char>, c: char, entries: Seq<PathView>)
    requires
        query.len() > 0 ==> narrows(query, query.push(c), entries),
    ensures
        forall|x: PathView|
            #[trigger] filtered(query.push(c), entries).contains(x) ==> filtered(
                query,
                entries,
            ).map_values(|e: PathView| plain(e)).contains(plain(x)),
{
    let longer = query.push(c);
    let o2 = outcomes_of(longer, entries);
    let o1 = outcomes_of(query, entries);
    lemma_ranked_members(entries, o2);
    lemma_ranked_members(entries, o1);
    assert forall|x: PathView| #[trigger] filtered(longer, entries).contains(x) implies filtered(
        query,
        entries,
    ).map_values(|e: PathView| plain(e)).contains(plain(x)) by {
        let i = choose|i: int|
            0 <= i < entries.len() && o2[i] is Some && plain(x) == plain(entries[i]);
        assert(o2[i] == fuzzy_match(longer, entries[i].value));
        let f = filtered(query, entries);
        let pf = f.map_values(|e: PathView| plain(e));
        if query.len() == 0 {
            assert(pf[i] == plain(plain(entries[i])));
            assert(plain(plain(entries[i])) == plain(entries[i]));
        } else {
            assert(o1[i] == fuzzy_match(query, entries[i].value));
            let y = choose|y: PathView| #[trigger] f.contains(y) && plain(y) == plain(entries[i]);
            let k = choose|k: int| 0 <= k < f.len() && f[k] == y;
            assert(pf[k] == plain(y));
        }
    }
}

/// Round trip: from an unfiltered state, typing any characters and then
/// clearing shows exactly the listing shown before, in ascending name
/// order.
pub proof fn law_clear_restores(s: AppView, keys: Seq<char>)
    requires
        valid(s),
        s.query.len() == 0,
    ensures
        step(typed(s, keys), Key::Esc).items == s.items,
        sorted_by_name(s.items),
{
    lemma_typed(s, keys);
    let items = s.items;
    assert forall|i: int, j: int| 0 <= i < j < items.len() implies !by_name()(
        #[trigger] items[j],
        #[trigger] items[i],
    ) by {
        assert(items[i] == plain(s.listing[i]) && items[j] == plain(s.listing[j]));
        assert(!by_name()(s.listing[j], s.listing[i]));
    }
}

/// Every transition keeps the state valid, and keeps the selection settled:
/// present exactly when entries are displayed, and naming one of them.
pub proof fn law_selection_settled(s: AppView, key: Key)
    requires
        valid(s),
        selection_settled(s.selected, s.items.len()),
    ensures
        valid(step(s, key)),
        selection_settled(step(s, key).selected, step(s, key).items.len()),
{
}

/// Installing a directory's listing leaves the selection settled.
pub proof fn law_listing_selection_settled(s: AppView, entries: Seq<PathView>)
    ensures
        selection_settled(listed(s, entries).selected, listed(s, entries).items.len()),
{
}

/// Entering a selected file changes nothing and asks for no directory.
pub proof fn law_enter_file_stays(s: AppView)
    requires
        valid(s),
        s.selected matches Some(i) && s.items[i as int].kind == ObjectType::File,
    ensures
        step(s, Key::Right) == s,
        requested(s, Key::Right) is None,
{
}

/// Entering a selected directory (with a non-empty name) asks to change to
/// a directory other than the current one: the entry inside it.
pub proof fn law_enter_directory_moves(s: AppView)
    requires
        valid(s),
        s.selected matches Some(i) && s.items[i as int].kind == ObjectType::Directory
            && s.items[i as int].value.len() > 0,
    ensures
        requested(s, Key::Right) matches Some(t) && t != s.cwd,
{
    let i = s.selected->Some_0 as int;
    let name = s.items[i].value;
    let t = requested(s, Key::Right)->Some_0;
    assert(t.len() > s.cwd.len());
}

/// Typing a character into the browser never adds an entry to those shown:
/// each entry shown afterwards was shown before (match positions aside), as
/// far as the matcher itself narrows on the listing.
pub proof fn law_typing_narrows(s: AppView, c: char)
    requires
        valid(s),
        c != quit_char(),
        s.query.len() > 0 ==> narrows(s.query, s.query.push(c), s.listing),
    ensures
        forall|x: PathView|
            #[trigger] step(s, Key::Char(c)).items.contains(x) ==> s.items.map_values(
                |e: PathView| plain(e),
            ).contains(plain(x)),
{
    law_narrowing(s.query, c, s.listing);
}

/// The state after appending each character of `keys` to the query in turn
/// and filtering, as `App::filter_paths` does.
pub open spec fn appended(s: AppView, keys: Seq<char>) -> AppView
    decreases keys.len(),
{
    if keys.len() == 0 {
        s
    } else {
        let t = appended(s, keys.drop_last());
        refiltered(t, t.query.push(keys.last()))
    }
}

proof fn lemma_appended(s: AppView, keys: Seq<char>)
    requires
        keys.len() > 0,
    ensures
        appended(s, keys).listing == s.listing,
        appended(s, keys).query == s.query + keys,
        appended(s, keys).items == filtered(s.query + keys, s.listing),
    decreases keys.len(),
{
    let init = keys.drop_last();
    if init.len() > 0 {
        lemma_appended(s, init);
    } else {
        assert(appended(s, init) == s);
        assert(s.query + init =~= s.query);
    }
    assert((s.query + init).push(keys.last()) =~= s.query + keys);
}

/// Filtering is idempotent: appending the characters of `query` to an empty
/// query, clearing, and appending them again shows the same entries, with
/// the same positions and order, and leaves the same query.
pub proof fn law_refilter_same_query(s: AppView, query: Seq<char>)
    requires
        s.query.len() == 0,
        query.len() > 0,
    ensures
        appended(refiltered(appended(s, query), seq![]), query).items == appended(s, query).items,
        appended(refiltered(appended(s, query), seq![]), query).query == query,
{
    lemma_appended(s, query);
    let c = refiltered(appended(s, query), seq![]);
    lemma_appended(c, query);
    assert(s.query + query =~= query);
    assert(c.query + query =~= query);
}

/// Entering a selected directory lands there: once the caller has moved to
/// the requested directory's canonical form `dir`, another directory than the
/// current one, and installed its listing `entries`, the browser is in `dir`
/// and shows that listing in listing order, without match positions and with
/// the first entry selected.
pub proof fn law_enter_directory_lands(s: AppView, dir: Seq<char>, entries: Seq<PathView>)
    requires
        valid(s),
        s.selected matches Some(i) && s.items[i as int].kind == ObjectType::Directory
            && s.items[i as int].value.len() > 0,
        dir != s.cwd,
    ensures
        requested(s, Key::Right) matches Some(t) && t != s.cwd,
        listed(AppView { cwd: dir, ..s }, entries).cwd == dir,
        listed(AppView { cwd: dir, ..s }, entries).cwd != s.cwd,
        listed(AppView { cwd: dir, ..s }, entries).items == listing_of(entries).map_values(
            |e: PathView| plain(e),
        ),
        listed(AppView { cwd: dir, ..s }, entries).query.len() == 0,
        listed(AppView { cwd: dir, ..s }, entries).selected == first_of(listing_of(entries).len()),
{
    law_enter_directory_moves(s);
}

} // verus!
