//! The order of the application list: by title, without regard to case.
//!
//! Sorting is done on applications that carry their sort key. `sort_by_key` orders by
//! whatever keys it is given; `sort_by_title` gives each application its title in
//! lowercase for a key.

use crate::text::{
    chars_of, le, lemma_lex_le_reflexive, lemma_lex_le_total, lemma_lex_le_transitive, lex_le,
    lowercase, to_lowercase,
};
use vstd::prelude::*;

verus! {

/// A running application as the front end shows it.
#[derive(Debug)]
pub struct ProcessInfo {
    pub pid: u32,
    pub name: String,
    pub title: String,
    /// The icon as an inline PNG image in base64, if one could be had.
    pub icon: Option<String>,
}

/// What a `ProcessInfo` holds, as plain values.
pub struct AppRecord {
    pub pid: u32,
    pub name: Seq<char>,
    pub title: Seq<char>,
    pub icon: Option<Seq<char>>,
}

impl View for ProcessInfo {
    type V = AppRecord;

    open spec fn view(&self) -> AppRecord {
        AppRecord {
            pid: self.pid,
            name: self.name@,
            title: self.title@,
            icon: match self.icon {
                Some(text) => Some(text@),
                None => None,
            },
        }
    }
}

impl Clone for ProcessInfo {
    fn clone(&self) -> (copy: Self)
        ensures
            copy == *self,
    {
        ProcessInfo {
            pid: self.pid,
            name: self.name.clone(),
            title: self.title.clone(),
            icon: match &self.icon {
                Some(text) => Some(text.clone()),
                None => None,
            },
        }
    }
}

/// An application together with the text by which it is ordered.
#[derive(Debug)]
pub struct KeyedApp {
    pub key: Vec<char>,
    pub app: ProcessInfo,
}

/// What a `KeyedApp` holds, as plain values.
pub struct KeyedRecord {
    pub key: Seq<char>,
    pub app: AppRecord,
}

impl View for KeyedApp {
    type V = KeyedRecord;

    open spec fn view(&self) -> KeyedRecord {
        KeyedRecord { key: self.key@, app: self.app@ }
    }
}

/// The records of a list of applications.
pub open spec fn app_records(apps: Seq<ProcessInfo>) -> Seq<AppRecord> {
    apps.map_values(|a: ProcessInfo| a@)
}

/// The records of a list of applications with keys.
pub open spec fn keyed_records(items: Seq<KeyedApp>) -> Seq<KeyedRecord> {
    items.map_values(|k: KeyedApp| k@)
}

/// No item stands before one whose key comes first.
pub open spec fn is_sorted_by_key(items: Seq<KeyedRecord>) -> bool {
    forall|i: int, j: int| 0 <= i < j < items.len() ==> lex_le(items[i].key, items[j].key)
}

/// Where `item` goes into the ordered list `sorted`: behind the last item whose key
/// comes no later than its own.
pub open spec fn landing(sorted: Seq<KeyedRecord>, item: KeyedRecord) -> int
    decreases sorted.len(),
{
    if sorted.len() == 0 {
        0
    } else if lex_le(sorted.last().key, item.key) {
        sorted.len() as int
    } else {
        landing(sorted.drop_last(), item)
    }
}

/// The items ordered by key; items with the same key keep the order they had.
pub open spec fn sorted_by_key(items: Seq<KeyedRecord>) -> Seq<KeyedRecord>
    decreases items.len(),
{
    if items.len() == 0 {
        Seq::empty()
    } else {
        let rest = sorted_by_key(items.drop_last());
        rest.insert(landing(rest, items.last()), items.last())
    }
}

/// The text by which an application is ordered: its title in lowercase.
pub open spec fn sort_key(a: AppRecord) -> Seq<char> {
    lowercase(a.title)
}

/// The applications, each with its title in lowercase for a key.
pub open spec fn with_title_keys(apps: Seq<AppRecord>) -> Seq<KeyedRecord> {
    Seq::new(apps.len(), |i: int| KeyedRecord { key: sort_key(apps[i]), app: apps[i] })
}

/// The applications of a list of applications with keys.
pub open spec fn apps_of(items: Seq<KeyedRecord>) -> Seq<AppRecord> {
    Seq::new(items.len(), |i: int| items[i].app)
}

/// The applications of `apps` ordered by title without regard to case; applications
/// whose titles differ only in case, or not at all, keep the order they had.
pub open spec fn sorted_by_title(apps: Seq<AppRecord>) -> Seq<AppRecord> {
    apps_of(sorted_by_key(with_title_keys(apps)))
}

/// `a` may stand before `b`.
pub open spec fn no_later(a: AppRecord, b: AppRecord) -> bool {
    lex_le(sort_key(a), sort_key(b))
}

/// No application stands before one that should come first.
pub open spec fn is_sorted(apps: Seq<AppRecord>) -> bool {
    forall|i: int, j: int| 0 <= i < j < apps.len() ==> no_later(apps[i], apps[j])
}

/// No two applications belong to the same process.
pub open spec fn one_per_process(apps: Seq<AppRecord>) -> bool {
    forall|i: int, j: int|
        0 <= i < j < apps.len() ==> (#[trigger] apps[i]).pid != (#[trigger] apps[j]).pid
}

/// The test for the sort key `key`.
pub open spec fn has_key(key: Seq<char>) -> spec_fn(AppRecord) -> bool {
    |a: AppRecord| sort_key(a) == key
}

/// The applications of `apps` whose sort key is `key`, in the order they have in `apps`.
pub open spec fn with_key(apps: Seq<AppRecord>, key: Seq<char>) -> Seq<AppRecord> {
    apps.filter(has_key(key))
}

/// The landing place lies behind every item whose key comes no later than that of
/// `item`, and before every other.
pub proof fn lemma_landing(sorted: Seq<KeyedRecord>, item: KeyedRecord)
    ensures
        0 <= landing(sorted, item) <= sorted.len(),
        landing(sorted, item) > 0 ==> lex_le(sorted[landing(sorted, item) - 1].key, item.key),
        forall|j: int|
            landing(sorted, item) <= j < sorted.len() ==> !lex_le(
                (#[trigger] sorted[j]).key,
                item.key,
            ),
    decreases sorted.len(),
{
    if sorted.len() > 0 && !lex_le(sorted.last().key, item.key) {
        lemma_landing(sorted.drop_last(), item);
        assert forall|j: int| landing(sorted, item) <= j < sorted.len() implies !lex_le(
            (#[trigger] sorted[j]).key,
            item.key,
        ) by {
            if j < sorted.len() - 1 {
                assert(sorted.drop_last()[j] == sorted[j]);
            }
        }
    }
}

/// A place with the two properties of the landing place is the landing place.
pub proof fn lemma_landing_unique(sorted: Seq<KeyedRecord>, item: KeyedRecord, p: int)
    requires
        0 <= p <= sorted.len(),
        p > 0 ==> lex_le(sorted[p - 1].key, item.key),
        forall|j: int| p <= j < sorted.len() ==> !lex_le((#[trigger] sorted[j]).key, item.key),
    ensures
        p == landing(sorted, item),
    decreases sorted.len(),
{
    if sorted.len() > 0 && !lex_le(sorted.last().key, item.key) {
        assert forall|j: int| p <= j < sorted.drop_last().len() implies !lex_le(
            (#[trigger] sorted.drop_last()[j]).key,
            item.key,
        ) by {}
        lemma_landing_unique(sorted.drop_last(), item, p);
    }
}

/// Putting an item at its landing place keeps an ordered list ordered.
pub proof fn lemma_insert_keeps_order(sorted: Seq<KeyedRecord>, item: KeyedRecord)
    requires
        is_sorted_by_key(sorted),
    ensures
        is_sorted_by_key(sorted.insert(landing(sorted, item), item)),
{
    lemma_landing(sorted, item);
    let p = landing(sorted, item);
    let out = sorted.insert(p, item);
    assert forall|i: int, j: int| 0 <= i < j < out.len() implies lex_le(out[i].key, out[j].key) by {
        if j == p && i < p - 1 {
            // What stands before the landing place comes no later than its last item.
            lemma_lex_le_transitive(sorted[i].key, sorted[p - 1].key, item.key);
        } else if i == p {
            // What stands behind does not come first; so the new item does.
            lemma_lex_le_total(sorted[j - 1].key, item.key);
        }
    }
}

/// The ordered list is ordered by key and as long as the list it was made from.
pub proof fn lemma_sorted_by_key_is_sorted(items: Seq<KeyedRecord>)
    ensures
        is_sorted_by_key(sorted_by_key(items)),
        sorted_by_key(items).len() == items.len(),
    decreases items.len(),
{
    if items.len() > 0 {
        lemma_sorted_by_key_is_sorted(items.drop_last());
        let rest = sorted_by_key(items.drop_last());
        lemma_landing(rest, items.last());
        lemma_insert_keeps_order(rest, items.last());
    }
}

/// The ordered list holds the same items, each as often as before.
pub proof fn lemma_sorted_by_key_permutes(items: Seq<KeyedRecord>)
    ensures
        sorted_by_key(items).to_multiset() == items.to_multiset(),
    decreases items.len(),
{
    broadcast use vstd::seq_lib::to_multiset_insert, vstd::seq_lib::to_multiset_build;

    if items.len() > 0 {
        lemma_sorted_by_key_permutes(items.drop_last());
        lemma_sorted_by_key_is_sorted(items.drop_last());
        let rest = sorted_by_key(items.drop_last());
        lemma_landing(rest, items.last());
        assert(items == items.drop_last().push(items.last()));
    } else {
        assert(sorted_by_key(items) == items);
    }
}

/// Ordering by title takes the applications one by one: the last application of `apps`
/// goes into the ordered list of those before it, at the place `p`, which lies behind
/// every application that may stand before it and before every other.
pub proof fn lemma_sorted_by_title_step(apps: Seq<AppRecord>) -> (p: int)
    requires
        apps.len() > 0,
    ensures
        sorted_by_title(apps.drop_last()).len() == apps.len() - 1,
        0 <= p <= apps.len() - 1,
        sorted_by_title(apps) == sorted_by_title(apps.drop_last()).insert(p, apps.last()),
        p > 0 ==> no_later(sorted_by_title(apps.drop_last())[p - 1], apps.last()),
        forall|j: int|
            p <= j < apps.len() - 1 ==> !no_later(
                #[trigger] sorted_by_title(apps.drop_last())[j],
                apps.last(),
            ),
{
    let keyed = with_title_keys(apps);
    let rest = sorted_by_key(keyed.drop_last());
    let p = landing(rest, keyed.last());
    assert(keyed.drop_last() == with_title_keys(apps.drop_last()));
    lemma_landing(rest, keyed.last());
    lemma_sorted_by_key_is_sorted(keyed.drop_last());
    lemma_keys_are_title_keys(apps.drop_last());
    p
}

/// In the list ordered by title every key is the title in lowercase of the application
/// it stands with.
pub proof fn lemma_keys_are_title_keys(apps: Seq<AppRecord>)
    ensures
        sorted_by_key(with_title_keys(apps)).len() == apps.len(),
        forall|i: int|
            0 <= i < apps.len() ==> (#[trigger] sorted_by_key(with_title_keys(apps))[i]).key
                == sort_key(sorted_by_key(with_title_keys(apps))[i].app),
    decreases apps.len(),
{
    if apps.len() > 0 {
        let keyed = with_title_keys(apps);
        let rest = sorted_by_key(keyed.drop_last());
        assert(keyed.drop_last() == with_title_keys(apps.drop_last()));
        lemma_keys_are_title_keys(apps.drop_last());
        lemma_landing(rest, keyed.last());
    }
}

/// The list ordered by title is ordered: titles never go down, without regard to case.
pub proof fn lemma_sorted_by_title_is_sorted(apps: Seq<AppRecord>)
    ensures
        is_sorted(sorted_by_title(apps)),
        sorted_by_title(apps).len() == apps.len(),
{
    let sorted = sorted_by_key(with_title_keys(apps));
    lemma_sorted_by_key_is_sorted(with_title_keys(apps));
    lemma_keys_are_title_keys(apps);
    assert forall|i: int, j: int| 0 <= i < j < sorted.len() implies no_later(
        sorted_by_title(apps)[i],
        sorted_by_title(apps)[j],
    ) by {}
}

/// The list ordered by title holds the same applications, each as often as before.
pub proof fn lemma_sorted_by_title_permutes(apps: Seq<AppRecord>)
    ensures
        sorted_by_title(apps).to_multiset() == apps.to_multiset(),
    decreases apps.len(),
{
    broadcast use vstd::seq_lib::to_multiset_insert, vstd::seq_lib::to_multiset_build;

    if apps.len() > 0 {
        lemma_sorted_by_title_permutes(apps.drop_last());
        let p = lemma_sorted_by_title_step(apps);
        assert(apps == apps.drop_last().push(apps.last()));
    } else {
        assert(sorted_by_title(apps) == apps);
    }
}

/// Every application of the ordered list is one of `apps`, and every one of `apps` is
/// in the ordered list.
pub proof fn lemma_sorted_by_title_members(apps: Seq<AppRecord>)
    ensures
        forall|a: AppRecord| sorted_by_title(apps).contains(a) <==> apps.contains(a),
{
    broadcast use vstd::seq_lib::to_multiset_contains;

    lemma_sorted_by_title_permutes(apps);
    assert forall|a: AppRecord| sorted_by_title(apps).contains(a) <==> apps.contains(a) by {
        assert(sorted_by_title(apps).to_multiset().count(a) == apps.to_multiset().count(a));
    }
}

/// Ordering is stable: applications with the same sort key keep the order they had.
pub proof fn lemma_sorted_by_title_is_stable(apps: Seq<AppRecord>, key: Seq<char>)
    ensures
        with_key(sorted_by_title(apps), key) == with_key(apps, key),
    decreases apps.len(),
{
    broadcast use Seq::filter_distributes_over_add;

    if apps.len() > 0 {
        let earlier = apps.drop_last();
        let last = apps.last();
        let rest = sorted_by_title(earlier);
        let p = lemma_sorted_by_title_step(apps);
        let out = rest.insert(p, last);
        let only = seq![last];
        lemma_sorted_by_title_is_stable(earlier, key);
        assert(out == (rest.take(p) + only) + rest.skip(p));
        assert(rest == rest.take(p) + rest.skip(p));
        assert(apps == earlier + only);
        assert(only.filter(has_key(key)) == if sort_key(last) == key {
            only
        } else {
            Seq::<AppRecord>::empty()
        }) by {
            reveal_with_fuel(Seq::filter, 2);
        }
        if sort_key(last) == key {
            // Nothing behind the landing place has the key: it would come no later.
            let behind = rest.skip(p).filter(has_key(key));
            if behind.len() > 0 {
                rest.skip(p).lemma_filter_pred(has_key(key), 0);
                rest.skip(p).lemma_filter_contains_rev(has_key(key), behind[0]);
                lemma_lex_le_reflexive(key);
            }
        }
    }
}

/// Ordering a list with one application for each process leaves one for each process.
pub proof fn lemma_sorted_by_title_one_per_process(apps: Seq<AppRecord>)
    requires
        one_per_process(apps),
    ensures
        one_per_process(sorted_by_title(apps)),
    decreases apps.len(),
{
    if apps.len() > 0 {
        let earlier = apps.drop_last();
        let last = apps.last();
        assert(one_per_process(earlier)) by {
            assert forall|i: int, j: int| 0 <= i < j < earlier.len() implies (
            #[trigger] earlier[i]).pid != (#[trigger] earlier[j]).pid by {}
        }
        lemma_sorted_by_title_one_per_process(earlier);
        lemma_sorted_by_title_members(earlier);
        let rest = sorted_by_title(earlier);
        let p = lemma_sorted_by_title_step(apps);
        let out = rest.insert(p, last);
        assert forall|i: int| 0 <= i < rest.len() implies (#[trigger] rest[i]).pid != last.pid by {
            assert(earlier.contains(rest[i]));
        }
        assert forall|i: int, j: int| 0 <= i < j < out.len() implies (#[trigger] out[i]).pid != (
        #[trigger] out[j]).pid by {}
    }
}

/// Orders applications by the keys they carry, in the lexicographic order of the keys
/// by code point. Applications with the same key keep the order they had.
pub fn sort_by_key(items: Vec<KeyedApp>) -> (sorted: Vec<KeyedApp>)
    ensures
        keyed_records(sorted@) == sorted_by_key(keyed_records(items@)),
        is_sorted_by_key(keyed_records(sorted@)),
        keyed_records(sorted@).to_multiset() == keyed_records(items@).to_multiset(),
{
    let ghost all = keyed_records(items@);
    let mut items = items;
    let mut sorted: Vec<KeyedApp> = Vec::new();
    let ghost mut n: int = 0;
    while items.len() > 0
        invariant
            0 <= n <= all.len(),
            keyed_records(items@) == all.skip(n),
            keyed_records(sorted@) == sorted_by_key(all.take(n)),
            sorted.len() == n,
        decreases items.len(),
    {
        assert(n < all.len() && items[0]@ == all[n]) by {
            assert(keyed_records(items@).len() == items.len());
            assert(keyed_records(items@)[0] == all.skip(n)[0]);
        }
        let item = items.remove(0);
        let ghost before = keyed_records(sorted@);
        let mut p: usize = sorted.len();
        while p > 0
            invariant
                p <= sorted.len(),
                before == keyed_records(sorted@),
                forall|j: int|
                    p <= j < before.len() ==> !lex_le((#[trigger] before[j]).key, item@.key),
            ensures
                p <= sorted.len(),
                p > 0 ==> lex_le(before[p - 1].key, item@.key),
                forall|j: int|
                    p <= j < before.len() ==> !lex_le((#[trigger] before[j]).key, item@.key),
            decreases p,
        {
            if le(sorted[p - 1].key.as_slice(), item.key.as_slice()) {
                break;
            }
            p -= 1;
        }
        proof {
            lemma_landing_unique(before, item@, p as int);
            let seen = all.take(n + 1);
            assert(seen.drop_last() == all.take(n));
            assert(keyed_records(items@) == all.skip(n + 1)) by {
                assert(all.skip(n).remove(0) == all.skip(n + 1));
            }
        }
        sorted.insert(p, item);
        proof {
            n = n + 1;
        }
    }
    proof {
        lemma_sorted_by_key_is_sorted(all);
        lemma_sorted_by_key_permutes(all);
    }
    sorted
}

/// The text by which an application is ordered.
fn key_of(app: &ProcessInfo) -> (key: Vec<char>)
    ensures
        key@ == sort_key(app@),
{
    let lower = to_lowercase(app.title.as_str());
    chars_of(lower.as_str())
}

/// Orders applications by title without regard to case. Applications whose titles
/// differ only in case, or not at all, keep the order they had.
pub fn sort_by_title(apps: &[ProcessInfo]) -> (sorted: Vec<ProcessInfo>)
    ensures
        app_records(sorted@) == sorted_by_title(app_records(apps@)),
        is_sorted(app_records(sorted@)),
        app_records(sorted@).to_multiset() == app_records(apps@).to_multiset(),
        forall|key: Seq<char>| #[trigger]
            with_key(app_records(sorted@), key) == with_key(app_records(apps@), key),
{
    let mut keyed: Vec<KeyedApp> = Vec::new();
    let mut n: usize = 0;
    while n < apps.len()
        invariant
            n <= apps.len(),
            keyed.len() == n,
            forall|i: int|
                0 <= i < n ==> (#[trigger] keyed[i])@ == (KeyedRecord {
                    key: sort_key(apps[i]@),
                    app: apps[i]@,
                }),
        decreases apps.len() - n,
    {
        let app = apps[n].clone();
        let key = key_of(&app);
        keyed.push(KeyedApp { key, app });
        n += 1;
    }
    assert(keyed_records(keyed@) == with_title_keys(app_records(apps@)));
    let mut ordered = sort_by_key(keyed);
    let ghost all = keyed_records(ordered@);
    let mut sorted: Vec<ProcessInfo> = Vec::new();
    let ghost mut m: int = 0;
    while ordered.len() > 0
        invariant
            0 <= m <= all.len(),
            keyed_records(ordered@) == all.skip(m),
            app_records(sorted@) == apps_of(all.take(m)),
        decreases ordered.len(),
    {
        assert(m < all.len() && ordered[0]@ == all[m]) by {
            assert(keyed_records(ordered@).len() == ordered.len());
            assert(keyed_records(ordered@)[0] == all.skip(m)[0]);
        }
        let item = ordered.remove(0);
        assert(keyed_records(ordered@) == all.skip(m + 1)) by {
            assert(all.skip(m).remove(0) == all.skip(m + 1));
        }
        sorted.push(item.app);
        assert(apps_of(all.take(m + 1)) == apps_of(all.take(m)).push(all[m].app));
        proof {
            m = m + 1;
        }
    }
    proof {
        assert(all.take(m) == all);
        lemma_sorted_by_title_is_sorted(app_records(apps@));
        lemma_sorted_by_title_permutes(app_records(apps@));
        assert forall|key: Seq<char>| #[trigger]
            with_key(app_records(sorted@), key) == with_key(app_records(apps@), key) by {
            lemma_sorted_by_title_is_stable(app_records(apps@), key);
        }
    }
    sorted
}

} // verus!
