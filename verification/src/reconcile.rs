//! From the open windows and the settings to the entries of the dock.
//!
//! Windows are grouped by their class in lower case. A pinned class has an
//! entry even without a window; an ignored class has none, pinned or not.

use crate::config::{ConfigSettings, Toggle};
use crate::text::{
    class_lt, lemma_class_lt_irreflexive, lemma_class_lt_total, lemma_class_lt_transitive,
    lowercase, precedes, same_text, texts, to_lowercase,
};
use vstd::prelude::*;
use vstd::seq_lib::{
    group_to_multiset_ensures, seq_to_set_is_finite, to_multiset_build, to_multiset_insert,
};
use vstd::set_lib::{lemma_len_subset, lemma_len_union};

verus! {

/// One open window, as the window manager reports it.
#[derive(Clone, Debug, PartialEq, Eq)]
pub struct HyprlandClient {
    pub class: String,
}

/// One application in the dock, with the number of its open windows. The
/// count is zero for a pinned application that is not running.
#[derive(Clone, Debug, PartialEq, Eq)]
pub struct DockEntry {
    pub class: String,
    pub window_count: usize,
}

/// A dock entry as mathematical values.
pub struct EntryModel {
    pub class: Seq<char>,
    pub window_count: nat,
}

impl View for DockEntry {
    type V = EntryModel;

    open spec fn view(&self) -> EntryModel {
        EntryModel { class: self.class@, window_count: self.window_count as nat }
    }
}

/// The entries of a list as mathematical values.
pub open spec fn models(entries: Seq<DockEntry>) -> Seq<EntryModel> {
    entries.map_values(|e: DockEntry| e@)
}

/// The classes of a list of entries, in its order.
pub open spec fn classes(entries: Seq<EntryModel>) -> Seq<Seq<char>> {
    entries.map_values(|e: EntryModel| e.class)
}

/// The classes of a list of windows, as reported.
pub open spec fn client_classes(clients: Seq<HyprlandClient>) -> Seq<Seq<char>> {
    clients.map_values(|c: HyprlandClient| c.class@)
}

/// Each name of a list in lower case.
pub open spec fn normalized(names: Seq<Seq<char>>) -> Seq<Seq<char>> {
    names.map_values(|n: Seq<char>| lowercase(n))
}

/// How often `class` occurs in `names`.
pub open spec fn occurrences(names: Seq<Seq<char>>, class: Seq<char>) -> nat
    decreases names.len(),
{
    if names.len() == 0 {
        0
    } else {
        occurrences(names.drop_last(), class) + if names.last() == class {
            1nat
        } else {
            0nat
        }
    }
}

/// The names of a list, each once, in the order in which they first occur.
pub open spec fn first_seen(names: Seq<Seq<char>>) -> Seq<Seq<char>>
    decreases names.len(),
{
    if names.len() == 0 {
        Seq::empty()
    } else {
        let before = first_seen(names.drop_last());
        if before.contains(names.last()) {
            before
        } else {
            before.push(names.last())
        }
    }
}

/// The names of a list that are not among `banned`, in the list's order.
pub open spec fn without(names: Seq<Seq<char>>, banned: Seq<Seq<char>>) -> Seq<Seq<char>>
    decreases names.len(),
{
    if names.len() == 0 {
        Seq::empty()
    } else {
        let before = without(names.drop_last(), banned);
        if banned.contains(names.last()) {
            before
        } else {
            before.push(names.last())
        }
    }
}

/// Whether `class` has an entry in the dock: it has a window or is pinned,
/// and it is not ignored.
pub open spec fn wanted(
    live: Seq<Seq<char>>,
    pinned: Seq<Seq<char>>,
    ignored: Seq<Seq<char>>,
    class: Seq<char>,
) -> bool {
    (live.contains(class) || pinned.contains(class)) && !ignored.contains(class)
}

/// The classes of the dock in the order in which they were first met: the
/// classes of the windows, then the pinned ones, without the ignored ones.
pub open spec fn shown_classes(
    live: Seq<Seq<char>>,
    pinned: Seq<Seq<char>>,
    ignored: Seq<Seq<char>>,
) -> Seq<Seq<char>> {
    without(first_seen(live + pinned), ignored)
}

/// The entries of the dock in the order in which their classes were first
/// met, each with the number of windows of its class.
pub open spec fn tallied(
    live: Seq<Seq<char>>,
    pinned: Seq<Seq<char>>,
    ignored: Seq<Seq<char>>,
) -> Seq<EntryModel> {
    shown_classes(live, pinned, ignored).map_values(
        |c: Seq<char>| EntryModel { class: c, window_count: occurrences(live, c) },
    )
}

/// Whether no entry comes after one with a greater class.
pub open spec fn sorted_by_class(entries: Seq<EntryModel>) -> bool {
    forall|i: int, j: int|
        0 <= i < j < entries.len() ==> !class_lt(
            (#[trigger] entries[j]).class,
            (#[trigger] entries[i]).class,
        )
}

/// Whether the classes of the entries go strictly up.
pub open spec fn ascending(entries: Seq<EntryModel>) -> bool {
    forall|i: int, j: int|
        0 <= i < j < entries.len() ==> class_lt(
            (#[trigger] entries[i]).class,
            (#[trigger] entries[j]).class,
        )
}

/// Whether `out` is the list of dock entries for the given classes, all in
/// lower case: windows `live`, pinned classes `pinned`, ignored classes
/// `ignored`.
///
/// Exactly the wanted classes have an entry, every entry counts the windows
/// of its class, and the order is fixed: strictly ascending by class, or
/// with `chaos` the order in which the classes were first met.
pub open spec fn reconciles(
    out: Seq<EntryModel>,
    live: Seq<Seq<char>>,
    pinned: Seq<Seq<char>>,
    ignored: Seq<Seq<char>>,
    chaos: bool,
) -> bool {
    &&& forall|c: Seq<char>| #[trigger] classes(out).contains(c) <==> wanted(live, pinned, ignored, c)
    &&& forall|i: int|
        0 <= i < out.len() ==> (#[trigger] out[i]).window_count == occurrences(live, out[i].class)
    &&& if chaos {
        out == tallied(live, pinned, ignored)
    } else {
        ascending(out)
    }
}

/// A name occurs in a list no more often than the list is long, and not at
/// all exactly where the list does not hold it.
pub proof fn lemma_occurrences_bound(names: Seq<Seq<char>>, class: Seq<char>)
    ensures
        occurrences(names, class) <= names.len(),
        occurrences(names, class) == 0 <==> !names.contains(class),
    decreases names.len(),
{
    if names.len() > 0 {
        lemma_occurrences_bound(names.drop_last(), class);
        if names.contains(class) && names.last() != class {
            let i = choose|i: int| 0 <= i < names.len() && names[i] == class;
            assert(names.drop_last()[i] == class);
        }
        if names.drop_last().contains(class) {
            let i = choose|i: int| 0 <= i < names.drop_last().len() && names.drop_last()[i] == class;
            assert(names[i] == class);
        }
        if names.last() == class {
            assert(names[names.len() - 1] == class);
        }
    }
}

/// The first occurrences of a list hold every name of the list, once.
pub proof fn lemma_first_seen(names: Seq<Seq<char>>)
    ensures
        first_seen(names).no_duplicates(),
        forall|c: Seq<char>| #[trigger] first_seen(names).contains(c) <==> names.contains(c),
    decreases names.len(),
{
    if names.len() > 0 {
        let init = names.drop_last();
        let last = names.last();
        lemma_first_seen(init);
        let before = first_seen(init);
        assert forall|c: Seq<char>| #[trigger] first_seen(names).contains(c) <==> names.contains(
            c,
        ) by {
            if names.contains(c) {
                let i = choose|i: int| 0 <= i < names.len() && names[i] == c;
                if i < names.len() - 1 {
                    assert(init[i] == c);
                    assert(before.contains(c));
                    let k = choose|k: int| 0 <= k < before.len() && before[k] == c;
                    assert(first_seen(names)[k] == c);
                } else {
                    if !before.contains(c) {
                        assert(first_seen(names)[before.len() as int] == c);
                    }
                }
            }
            if first_seen(names).contains(c) {
                let k = choose|k: int| 0 <= k < first_seen(names).len() && first_seen(names)[k] == c;
                if k < before.len() {
                    assert(before[k] == c);
                    assert(before.contains(c));
                    assert(init.contains(c));
                    let i = choose|i: int| 0 <= i < init.len() && init[i] == c;
                    assert(names[i] == c);
                } else {
                    assert(names[names.len() - 1] == c);
                }
            }
        }
    }
}

/// What is left without the banned names are the other names of the list,
/// and none of them twice if none was there twice.
pub proof fn lemma_without(names: Seq<Seq<char>>, banned: Seq<Seq<char>>)
    ensures
        names.no_duplicates() ==> without(names, banned).no_duplicates(),
        forall|c: Seq<char>| #[trigger]
            without(names, banned).contains(c) <==> names.contains(c) && !banned.contains(c),
    decreases names.len(),
{
    if names.len() > 0 {
        let init = names.drop_last();
        let last = names.last();
        lemma_without(init, banned);
        let before = without(init, banned);
        let now = without(names, banned);
        assert forall|c: Seq<char>| #[trigger] now.contains(c) <==> names.contains(c)
            && !banned.contains(c) by {
            if names.contains(c) && !banned.contains(c) {
                let i = choose|i: int| 0 <= i < names.len() && names[i] == c;
                if i < names.len() - 1 {
                    assert(init[i] == c);
                    assert(before.contains(c));
                    let k = choose|k: int| 0 <= k < before.len() && before[k] == c;
                    assert(now[k] == c);
                } else {
                    assert(now[before.len() as int] == c);
                }
            }
            if now.contains(c) {
                let k = choose|k: int| 0 <= k < now.len() && now[k] == c;
                if k < before.len() {
                    assert(before[k] == c);
                    assert(before.contains(c));
                    assert(init.contains(c));
                    let i = choose|i: int| 0 <= i < init.len() && init[i] == c;
                    assert(names[i] == c);
                } else {
                    assert(names[names.len() - 1] == c);
                }
            }
        }
        if names.no_duplicates() {
            assert(init.no_duplicates());
            if !banned.contains(last) {
                assert forall|i: int, j: int|
                    0 <= i < now.len() && 0 <= j < now.len() && i != j implies now[i] != now[j] by {
                    if i == before.len() && j < before.len() {
                        assert(before.contains(now[j]));
                        let k = choose|k: int| 0 <= k < init.len() && init[k] == now[j];
                        assert(names[k] == now[j]);
                    }
                    if j == before.len() && i < before.len() {
                        assert(before.contains(now[i]));
                        let k = choose|k: int| 0 <= k < init.len() && init[k] == now[i];
                        assert(names[k] == now[i]);
                    }
                }
            }
        }
    }
}

/// Banning one more name takes its one occurrence out of a list that is
/// already without the others.
proof fn lemma_without_one_more(
    names: Seq<Seq<char>>,
    banned: Seq<Seq<char>>,
    extra: Seq<char>,
)
    requires
        names.no_duplicates(),
    ensures
        !without(names, banned).contains(extra) ==> without(names, banned.push(extra)) == without(
            names,
            banned,
        ),
        forall|i: int|
            0 <= i < without(names, banned).len() && without(names, banned)[i] == extra ==> without(
                names,
                banned.push(extra),
            ) == without(names, banned).remove(i),
    decreases names.len(),
{
    let cur = without(names, banned);
    let more = banned.push(extra);
    let target = without(names, more);
    assert forall|c: Seq<char>| more.contains(c) <==> banned.contains(c) || c == extra by {
        if banned.contains(c) {
            let k = choose|k: int| 0 <= k < banned.len() && banned[k] == c;
            assert(more[k] == c);
        }
        if c == extra {
            assert(more[banned.len() as int] == c);
        }
    }
    if names.len() > 0 {
        let init = names.drop_last();
        let last = names.last();
        assert(init.no_duplicates());
        lemma_without_one_more(init, banned, extra);
        lemma_without(init, banned);
        lemma_without(names, banned);
        let cur_init = without(init, banned);
        if banned.contains(last) {
        } else if last == extra {
            assert(cur == cur_init.push(last));
            assert(!init.contains(extra)) by {
                if init.contains(extra) {
                    let k = choose|k: int| 0 <= k < init.len() && init[k] == extra;
                    assert(names[k] == names[names.len() - 1]);
                }
            }
            assert(!cur_init.contains(extra));
            assert(target == cur_init);
            assert forall|i: int| 0 <= i < cur.len() && cur[i] == extra implies target
                == cur.remove(i) by {
                if i < cur_init.len() {
                    assert(cur_init[i] == extra);
                    assert(cur_init.contains(extra));
                }
                assert(cur.remove(i) =~= cur_init);
            }
        } else {
            assert(cur == cur_init.push(last));
            assert(target == without(init, more).push(last));
            if !cur.contains(extra) {
                if cur_init.contains(extra) {
                    let k = choose|k: int| 0 <= k < cur_init.len() && cur_init[k] == extra;
                    assert(cur[k] == extra);
                }
            }
            assert forall|i: int| 0 <= i < cur.len() && cur[i] == extra implies target
                == cur.remove(i) by {
                assert(i < cur_init.len());
                assert(cur_init[i] == extra);
                assert(cur.remove(i) =~= cur_init.remove(i).push(last));
            }
        }
    }
}

/// The place of the entry for `class`, if there is one.
fn find_entry(entries: &Vec<DockEntry>, class: &str) -> (r: Option<usize>)
    ensures
        match r {
            Some(i) => i < entries.len() && entries[i as int].class@ == class@,
            None => !classes(models(entries@)).contains(class@),
        },
{
    let mut i: usize = 0;
    while i < entries.len()
        invariant
            i <= entries.len(),
            forall|k: int| 0 <= k < i ==> entries[k].class@ != class@,
        decreases entries.len() - i,
    {
        if same_text(entries[i].class.as_str(), class) {
            return Some(i);
        }
        i += 1;
    }
    assert forall|k: int| 0 <= k < entries.len() implies classes(models(entries@))[k] != class@ by {
        assert(classes(models(entries@))[k] == entries[k].class@);
    }
    None
}

/// Whether every entry counts the occurrences of its class in `names`.
pub open spec fn counts_in(entries: Seq<EntryModel>, names: Seq<Seq<char>>) -> bool {
    forall|k: int|
        0 <= k < entries.len() ==> (#[trigger] entries[k]).window_count == occurrences(
            names,
            entries[k].class,
        )
}

/// The entries for classes that are already in lower case: one for every
/// class that occurs in `live` or `pinned` and not in `ignored`, with the
/// number of its occurrences in `live`, in the order in which the classes
/// are first met.
pub fn count_classes(live: &Vec<String>, pinned: &Vec<String>, ignored: &Vec<String>) -> (r: Vec<
    DockEntry,
>)
    ensures
        models(r@) == tallied(texts(live@), texts(pinned@), texts(ignored@)),
{
    let ghost l = texts(live@);
    let ghost p = texts(pinned@);
    let ghost g = texts(ignored@);
    let mut entries: Vec<DockEntry> = Vec::new();
    let mut i: usize = 0;
    assert(l.take(0) =~= Seq::empty());
    assert(classes(models(entries@)) =~= first_seen(l.take(0)));
    while i < live.len()
        invariant
            i <= live.len(),
            l == texts(live@),
            classes(models(entries@)) == first_seen(l.take(i as int)),
            counts_in(models(entries@), l.take(i as int)),
        decreases live.len() - i,
    {
        let ghost before = models(entries@);
        let ghost seen = l.take(i as int);
        let ghost class = l[i as int];
        proof {
            assert(l.take(i + 1).drop_last() =~= seen);
            assert(l.take(i + 1).last() == class);
            lemma_first_seen(seen);
            lemma_occurrences_bound(seen, class);
            assert(live[i as int]@ == class);
        }
        match find_entry(&entries, live[i].as_str()) {
            Some(k) => {
                proof {
                    assert(before[k as int].window_count == occurrences(seen, class));
                }
                let entry = entries.remove(k);
                entries.insert(
                    k,
                    DockEntry { class: entry.class, window_count: entry.window_count + 1 },
                );
                proof {
                    let after = models(entries@);
                    assert(classes(after) =~= classes(before));
                    assert(classes(before).contains(class)) by {
                        assert(classes(before)[k as int] == class);
                    }
                    assert forall|m: int| 0 <= m < after.len() implies (#[trigger] after[m]).window_count
                        == occurrences(l.take(i + 1), after[m].class) by {
                        if m != k {
                            assert(after[m] == before[m]);
                            assert(classes(before)[m] != classes(before)[k as int]);
                        }
                    }
                }
            },
            None => {
                entries.push(DockEntry { class: live[i].clone(), window_count: 1 });
                proof {
                    let after = models(entries@);
                    assert(classes(after) =~= classes(before).push(class));
                    assert forall|m: int| 0 <= m < after.len() implies (#[trigger] after[m]).window_count
                        == occurrences(l.take(i + 1), after[m].class) by {
                        if m < before.len() {
                            assert(after[m] == before[m]);
                            assert(classes(before)[m] == before[m].class);
                            assert(classes(before).contains(before[m].class));
                        }
                    }
                }
            },
        }
        i += 1;
    }
    assert(l.take(i as int) =~= l);
    let mut j: usize = 0;
    assert(l + p.take(0) =~= l);
    while j < pinned.len()
        invariant
            j <= pinned.len(),
            p == texts(pinned@),
            classes(models(entries@)) == first_seen(l + p.take(j as int)),
            counts_in(models(entries@), l),
        decreases pinned.len() - j,
    {
        let ghost before = models(entries@);
        let ghost seen = l + p.take(j as int);
        let ghost class = p[j as int];
        proof {
            assert((l + p.take(j + 1)).drop_last() =~= seen);
            assert((l + p.take(j + 1)).last() == class);
            lemma_first_seen(seen);
            lemma_occurrences_bound(l, class);
            assert(pinned[j as int]@ == class);
        }
        match find_entry(&entries, pinned[j].as_str()) {
            Some(k) => {
                assert(classes(before)[k as int] == class);
            },
            None => {
                entries.push(DockEntry { class: pinned[j].clone(), window_count: 0 });
                proof {
                    let after = models(entries@);
                    assert(classes(after) =~= classes(before).push(class));
                    assert(!l.contains(class)) by {
                        if l.contains(class) {
                            let k = choose|k: int| 0 <= k < l.len() && l[k] == class;
                            assert(seen[k] == class);
                        }
                    }
                    assert forall|m: int| 0 <= m < after.len() implies (#[trigger] after[m]).window_count
                        == occurrences(l, after[m].class) by {
                        if m < before.len() {
                            assert(after[m] == before[m]);
                        }
                    }
                }
            },
        }
        j += 1;
    }
    assert(p.take(j as int) =~= p);
    let ghost met = first_seen(l + p);
    let mut n: usize = 0;
    proof {
        lemma_first_seen(l + p);
        lemma_without_nothing(met);
        assert(g.take(0) =~= Seq::empty());
    }
    while n < ignored.len()
        invariant
            n <= ignored.len(),
            g == texts(ignored@),
            met == first_seen(l + p),
            met.no_duplicates(),
            classes(models(entries@)) == without(met, g.take(n as int)),
            counts_in(models(entries@), l),
        decreases ignored.len() - n,
    {
        let ghost before = models(entries@);
        let ghost class = g[n as int];
        proof {
            assert(g.take(n + 1) =~= g.take(n as int).push(class));
            lemma_without_one_more(met, g.take(n as int), class);
            assert(ignored[n as int]@ == class);
        }
        match find_entry(&entries, ignored[n].as_str()) {
            Some(k) => {
                entries.remove(k);
                proof {
                    let after = models(entries@);
                    assert(classes(before)[k as int] == class);
                    assert(classes(after) =~= classes(before).remove(k as int));
                    assert forall|m: int| 0 <= m < after.len() implies (#[trigger] after[m]).window_count
                        == occurrences(l, after[m].class) by {
                        if m < k {
                            assert(after[m] == before[m]);
                        } else {
                            assert(after[m] == before[m + 1]);
                        }
                    }
                }
            },
            None => {},
        }
        n += 1;
    }
    proof {
        assert(g.take(n as int) =~= g);
        let out = models(entries@);
        let want = tallied(l, p, g);
        assert(out.len() == want.len()) by {
            assert(classes(out).len() == out.len());
        }
        assert forall|m: int| 0 <= m < out.len() implies out[m] == want[m] by {
            assert(classes(out)[m] == out[m].class);
        }
        assert(out =~= want);
    }
    entries
}

/// With nothing banned, nothing is taken out.
proof fn lemma_without_nothing(names: Seq<Seq<char>>)
    ensures
        without(names, Seq::empty()) == names,
    decreases names.len(),
{
    if names.len() > 0 {
        lemma_without_nothing(names.drop_last());
        assert(names.drop_last().push(names.last()) =~= names);
    } else {
        assert(names =~= Seq::empty());
    }
}

/// Each name of a list in lower case.
pub fn normalize(names: &Vec<String>) -> (r: Vec<String>)
    ensures
        texts(r@) == normalized(texts(names@)),
{
    let mut out: Vec<String> = Vec::new();
    let mut i: usize = 0;
    while i < names.len()
        invariant
            i <= names.len(),
            out.len() == i,
            forall|k: int| 0 <= k < i ==> (#[trigger] out[k])@ == lowercase(names[k]@),
        decreases names.len() - i,
    {
        out.push(to_lowercase(names[i].as_str()));
        i += 1;
    }
    assert(texts(out@) =~= normalized(texts(names@)));
    out
}

/// The class of each window, in lower case.
pub fn window_classes(clients: &Vec<HyprlandClient>) -> (r: Vec<String>)
    ensures
        texts(r@) == normalized(client_classes(clients@)),
{
    let mut out: Vec<String> = Vec::new();
    let mut i: usize = 0;
    while i < clients.len()
        invariant
            i <= clients.len(),
            out.len() == i,
            forall|k: int| 0 <= k < i ==> (#[trigger] out[k])@ == lowercase(clients[k].class@),
        decreases clients.len() - i,
    {
        out.push(to_lowercase(clients[i].class.as_str()));
        i += 1;
    }
    assert(texts(out@) =~= normalized(client_classes(clients@)));
    out
}

/// The number of open windows of every application that the dock shows:
/// those that have a window or are pinned, but for the ignored ones. Classes
/// are compared in lower case. The entries come in the order in which
/// their classes are first met, windows before pinned classes.
pub fn collect_app_counts(clients: &Vec<HyprlandClient>, cfg: &ConfigSettings) -> (r: Vec<DockEntry>)
    ensures
        models(r@) == tallied(
            normalized(client_classes(clients@)),
            normalized(cfg@.pinned_applications),
            normalized(cfg@.ignore_applications),
        ),
{
    let live = window_classes(clients);
    let pinned = normalize(&cfg.pinned_applications);
    let ignored = normalize(&cfg.ignore_applications);
    count_classes(&live, &pinned, &ignored)
}

/// Puts `entry` into a sorted list, behind the entries that do not come
/// after it.
fn insert_sorted(sorted: &mut Vec<DockEntry>, entry: DockEntry)
    requires
        sorted_by_class(models(old(sorted)@)),
    ensures
        sorted_by_class(models(final(sorted)@)),
        models(final(sorted)@).to_multiset() == models(old(sorted)@).to_multiset().insert(entry@),
{
    let ghost before = models(sorted@);
    let ghost class = entry.class@;
    let mut p: usize = 0;
    let mut found = false;
    while p < sorted.len() && !found
        invariant
            p <= sorted.len(),
            before == models(sorted@),
            class == entry.class@,
            forall|k: int| 0 <= k < p ==> !class_lt(class, (#[trigger] before[k]).class),
            found ==> p < sorted.len() && class_lt(class, before[p as int].class),
        decreases sorted.len() - p, (if found { 0int } else { 1int }),
    {
        if precedes(entry.class.as_str(), sorted[p].class.as_str()) {
            found = true;
        } else {
            p += 1;
        }
    }
    let ghost model = entry@;
    sorted.insert(p, entry);
    proof {
        let after = models(sorted@);
        assert(after =~= before.insert(p as int, model));
        to_multiset_insert(before, p as int, model);
        assert forall|i: int, j: int| 0 <= i < j < after.len() implies !class_lt(
            (#[trigger] after[j]).class,
            (#[trigger] after[i]).class,
        ) by {
            if j == p {
                assert(after[i] == before[i]);
            } else if i == p {
                assert(after[j] == before[j - 1]);
                if class_lt(before[j - 1].class, class) {
                    lemma_class_lt_transitive(before[j - 1].class, class, before[p as int].class);
                    lemma_class_lt_irreflexive(before[p as int].class);
                }
            } else {
                let bi = if i < p { i } else { i - 1 };
                let bj = if j < p { j } else { j - 1 };
                assert(after[i] == before[bi] && after[j] == before[bj]);
            }
        }
    }
}

/// The same entries, sorted by class.
pub fn sort_entries(entries: Vec<DockEntry>) -> (r: Vec<DockEntry>)
    ensures
        sorted_by_class(models(r@)),
        models(r@).to_multiset() == models(entries@).to_multiset(),
{
    broadcast use group_to_multiset_ensures;

    let ghost all = models(entries@);
    let mut rest = entries;
    let mut out: Vec<DockEntry> = Vec::new();
    assert(models(out@) =~= Seq::empty());
    assert(models(out@).to_multiset().add(all.to_multiset()) =~= all.to_multiset());
    while rest.len() > 0
        invariant
            sorted_by_class(models(out@)),
            models(out@).to_multiset().add(models(rest@).to_multiset()) == all.to_multiset(),
        decreases rest.len(),
    {
        let ghost done = models(out@);
        let ghost left = models(rest@);
        let entry = rest.pop().unwrap();
        proof {
            assert(left =~= models(rest@).push(entry@));
            to_multiset_build(models(rest@), entry@);
        }
        insert_sorted(&mut out, entry);
        assert(models(out@).to_multiset().add(models(rest@).to_multiset()) =~= done.to_multiset().add(
            left.to_multiset(),
        ));
    }
    assert(models(rest@) =~= Seq::empty());
    assert(models(out@).to_multiset() =~= all.to_multiset());
    out
}

/// The entries in first-met order have the wanted classes, each once, and
/// the right counts.
pub proof fn lemma_tallied(live: Seq<Seq<char>>, pinned: Seq<Seq<char>>, ignored: Seq<Seq<char>>)
    ensures
        classes(tallied(live, pinned, ignored)) == shown_classes(live, pinned, ignored),
        classes(tallied(live, pinned, ignored)).no_duplicates(),
        reconciles(tallied(live, pinned, ignored), live, pinned, ignored, true),
{
    let met = first_seen(live + pinned);
    let out = tallied(live, pinned, ignored);
    lemma_first_seen(live + pinned);
    lemma_without(met, ignored);
    assert(classes(out) =~= shown_classes(live, pinned, ignored));
    assert forall|c: Seq<char>| #[trigger] classes(out).contains(c) <==> wanted(
        live,
        pinned,
        ignored,
        c,
    ) by {
        lemma_concat_contains(live, pinned, c);
    }
}

/// A name is in two lists put together where it is in one of them.
proof fn lemma_concat_contains(a: Seq<Seq<char>>, b: Seq<Seq<char>>, c: Seq<char>)
    ensures
        (a + b).contains(c) <==> a.contains(c) || b.contains(c),
{
    if a.contains(c) {
        let i = choose|i: int| 0 <= i < a.len() && a[i] == c;
        assert((a + b)[i] == c);
    }
    if b.contains(c) {
        let i = choose|i: int| 0 <= i < b.len() && b[i] == c;
        assert((a + b)[a.len() + i] == c);
    }
    if (a + b).contains(c) {
        let i = choose|i: int| 0 <= i < (a + b).len() && (a + b)[i] == c;
        if i < a.len() {
            assert(a[i] == c);
        } else {
            assert(b[i - a.len()] == c);
        }
    }
}

/// Sorting the entries in first-met order gives the sorted list of dock
/// entries.
proof fn lemma_sorted_reconciles(
    out: Seq<EntryModel>,
    live: Seq<Seq<char>>,
    pinned: Seq<Seq<char>>,
    ignored: Seq<Seq<char>>,
)
    requires
        sorted_by_class(out),
        out.to_multiset() == tallied(live, pinned, ignored).to_multiset(),
    ensures
        reconciles(out, live, pinned, ignored, false),
{
    broadcast use group_to_multiset_ensures;

    let base = tallied(live, pinned, ignored);
    lemma_tallied(live, pinned, ignored);
    assert forall|e: EntryModel| out.contains(e) <==> base.contains(e) by {
        assert(out.to_multiset().count(e) == base.to_multiset().count(e));
    }
    assert forall|c: Seq<char>| #[trigger] classes(out).contains(c) <==> classes(base).contains(
        c,
    ) by {
        if classes(out).contains(c) {
            let i = choose|i: int| 0 <= i < classes(out).len() && classes(out)[i] == c;
            assert(out.contains(out[i]));
            let k = choose|k: int| 0 <= k < base.len() && base[k] == out[i];
            assert(classes(base)[k] == c);
        }
        if classes(base).contains(c) {
            let i = choose|i: int| 0 <= i < classes(base).len() && classes(base)[i] == c;
            assert(base.contains(base[i]));
            let k = choose|k: int| 0 <= k < out.len() && out[k] == base[i];
            assert(classes(out)[k] == c);
        }
    }
    assert forall|i: int| 0 <= i < out.len() implies (#[trigger] out[i]).window_count == occurrences(
        live,
        out[i].class,
    ) by {
        assert(out.contains(out[i]));
        let k = choose|k: int| 0 <= k < base.len() && base[k] == out[i];
    }
    assert(base.no_duplicates()) by {
        assert forall|i: int, j: int| 0 <= i < base.len() && 0 <= j < base.len() && i != j implies base[i]
            != base[j] by {
            assert(classes(base)[i] != classes(base)[j]);
        }
    }
    base.lemma_multiset_has_no_duplicates();
    out.lemma_multiset_has_no_duplicates_conv();
    assert forall|i: int, j: int| 0 <= i < j < out.len() implies class_lt(
        (#[trigger] out[i]).class,
        (#[trigger] out[j]).class,
    ) by {
        assert(out.contains(out[i]) && out.contains(out[j]));
        let a = choose|a: int| 0 <= a < base.len() && base[a] == out[i];
        let b = choose|b: int| 0 <= b < base.len() && base[b] == out[j];
        assert(a != b);
        assert(classes(base)[a] != classes(base)[b]);
        lemma_class_lt_total(out[i].class, out[j].class);
    }
}

/// Two lists whose classes go strictly up and are the same classes hold
/// them in the same order.
proof fn lemma_ascending_unique(a: Seq<EntryModel>, b: Seq<EntryModel>)
    requires
        ascending(a),
        ascending(b),
        forall|c: Seq<char>| #[trigger] classes(a).contains(c) <==> classes(b).contains(c),
    ensures
        classes(a) == classes(b),
    decreases a.len(),
{
    if a.len() == 0 {
        if b.len() > 0 {
            assert(classes(b)[0] == b[0].class);
            assert(classes(b).contains(b[0].class));
            assert(classes(a).contains(b[0].class));
        }
        assert(classes(a) =~= classes(b));
    } else {
        let x = a[0].class;
        assert(classes(a)[0] == x);
        assert(classes(a).contains(x));
        let j = choose|j: int| 0 <= j < classes(b).len() && classes(b)[j] == x;
        let y = b[0].class;
        assert(classes(b)[0] == y);
        assert(classes(b).contains(y));
        assert(classes(a).contains(y));
        let i = choose|i: int| 0 <= i < classes(a).len() && classes(a)[i] == y;
        if x != y {
            assert(class_lt(b[0].class, b[j].class));
            assert(class_lt(a[0].class, a[i].class));
            lemma_class_lt_transitive(x, y, x);
            lemma_class_lt_irreflexive(x);
        }
        let ta = a.drop_first();
        let tb = b.drop_first();
        assert forall|p: int, q: int| 0 <= p < q < ta.len() implies class_lt(
            (#[trigger] ta[p]).class,
            (#[trigger] ta[q]).class,
        ) by {
            assert(ta[p] == a[p + 1] && ta[q] == a[q + 1]);
        }
        assert forall|p: int, q: int| 0 <= p < q < tb.len() implies class_lt(
            (#[trigger] tb[p]).class,
            (#[trigger] tb[q]).class,
        ) by {
            assert(tb[p] == b[p + 1] && tb[q] == b[q + 1]);
        }
        assert forall|c: Seq<char>| #[trigger] classes(ta).contains(c) <==> classes(tb).contains(
            c,
        ) by {
            lemma_tail_classes(a, c);
            lemma_tail_classes(b, c);
        }
        lemma_ascending_unique(ta, tb);
        assert(classes(a) =~= seq![x] + classes(ta));
        assert(classes(b) =~= seq![y] + classes(tb));
    }
}

/// In a list whose classes go strictly up, the classes behind the first are
/// all the classes but the first.
proof fn lemma_tail_classes(a: Seq<EntryModel>, c: Seq<char>)
    requires
        ascending(a),
        a.len() > 0,
    ensures
        classes(a.drop_first()).contains(c) <==> classes(a).contains(c) && c != a[0].class,
{
    let t = a.drop_first();
    if classes(t).contains(c) {
        let k = choose|k: int| 0 <= k < classes(t).len() && classes(t)[k] == c;
        assert(t[k] == a[k + 1]);
        assert(classes(a)[k + 1] == c);
        assert(class_lt(a[0].class, a[k + 1].class));
        lemma_class_lt_irreflexive(c);
    }
    if classes(a).contains(c) && c != a[0].class {
        let k = choose|k: int| 0 <= k < classes(a).len() && classes(a)[k] == c;
        assert(t[k - 1] == a[k]);
        assert(classes(t)[k - 1] == c);
    }
}

/// The list of dock entries is determined by the windows and the settings:
/// two lists that both meet the description are the same list. So reconciling
/// twice from the same windows and settings gives the same entries in the
/// same order.
pub proof fn lemma_reconciles_unique(
    a: Seq<EntryModel>,
    b: Seq<EntryModel>,
    live: Seq<Seq<char>>,
    pinned: Seq<Seq<char>>,
    ignored: Seq<Seq<char>>,
    chaos: bool,
)
    requires
        reconciles(a, live, pinned, ignored, chaos),
        reconciles(b, live, pinned, ignored, chaos),
    ensures
        a == b,
{
    if !chaos {
        lemma_ascending_unique(a, b);
        assert(a.len() == classes(a).len() && b.len() == classes(b).len());
        assert forall|i: int| 0 <= i < a.len() implies a[i] == b[i] by {
            assert(classes(a)[i] == a[i].class && classes(b)[i] == b[i].class);
        }
        assert(a =~= b);
    }
}

/// No entry of the dock has an ignored class, whether the class has windows
/// or is pinned.
pub proof fn lemma_ignored_never_shown(
    out: Seq<EntryModel>,
    live: Seq<Seq<char>>,
    pinned: Seq<Seq<char>>,
    ignored: Seq<Seq<char>>,
    chaos: bool,
)
    requires
        reconciles(out, live, pinned, ignored, chaos),
    ensures
        forall|i: int, j: int|
            0 <= i < out.len() && 0 <= j < ignored.len() ==> (#[trigger] out[i]).class
                != #[trigger] ignored[j],
{
    assert forall|i: int, j: int| 0 <= i < out.len() && 0 <= j < ignored.len() implies (
    #[trigger] out[i]).class != #[trigger] ignored[j] by {
        assert(classes(out)[i] == out[i].class);
        assert(classes(out).contains(out[i].class));
    }
}

/// Every class that is pinned and not ignored has an entry, and the entry of
/// a class without a window shows no window.
pub proof fn lemma_pinned_shown(
    out: Seq<EntryModel>,
    live: Seq<Seq<char>>,
    pinned: Seq<Seq<char>>,
    ignored: Seq<Seq<char>>,
    chaos: bool,
)
    requires
        reconciles(out, live, pinned, ignored, chaos),
    ensures
        forall|j: int|
            0 <= j < pinned.len() && !ignored.contains(#[trigger] pinned[j]) ==> classes(
                out,
            ).contains(pinned[j]),
        forall|i: int|
            0 <= i < out.len() ==> ((#[trigger] out[i]).window_count == 0 <==> !live.contains(
                out[i].class,
            )),
{
    assert forall|i: int| 0 <= i < out.len() implies ((#[trigger] out[i]).window_count == 0
        <==> !live.contains(out[i].class)) by {
        lemma_occurrences_bound(live, out[i].class);
    }
}

/// No class has two entries: the windows of a class are counted in one
/// place.
pub proof fn lemma_one_entry_per_class(
    out: Seq<EntryModel>,
    live: Seq<Seq<char>>,
    pinned: Seq<Seq<char>>,
    ignored: Seq<Seq<char>>,
    chaos: bool,
)
    requires
        reconciles(out, live, pinned, ignored, chaos),
    ensures
        classes(out).no_duplicates(),
{
    if chaos {
        lemma_tallied(live, pinned, ignored);
    } else {
        assert forall|i: int, j: int|
            0 <= i < classes(out).len() && 0 <= j < classes(out).len() && i != j implies classes(
            out,
        )[i] != classes(out)[j] by {
            if i < j {
                assert(class_lt(out[i].class, out[j].class));
            } else {
                assert(class_lt(out[j].class, out[i].class));
            }
            lemma_class_lt_irreflexive(out[i].class);
        }
    }
}

/// The dock has no more entries than there are different classes among the
/// windows and different classes among the pinned ones that are not
/// ignored.
pub proof fn lemma_size_bound(
    out: Seq<EntryModel>,
    live: Seq<Seq<char>>,
    pinned: Seq<Seq<char>>,
    ignored: Seq<Seq<char>>,
    chaos: bool,
)
    requires
        reconciles(out, live, pinned, ignored, chaos),
    ensures
        out.len() <= live.to_set().len() + without(pinned, ignored).to_set().len(),
{
    broadcast use vstd::set::group_set_axioms;

    let shown = classes(out);
    let kept = without(pinned, ignored);
    let both = live.to_set().union(kept.to_set());
    lemma_one_entry_per_class(out, live, pinned, ignored, chaos);
    shown.unique_seq_to_set();
    seq_to_set_is_finite(live);
    seq_to_set_is_finite(kept);
    lemma_without(pinned, ignored);
    assert forall|c: Seq<char>| shown.to_set().contains(c) implies both.contains(c) by {
        assert(shown.contains(c));
        if !live.contains(c) {
            assert(kept.contains(c));
        }
    }
    lemma_len_union(live.to_set(), kept.to_set());
    lemma_len_subset(shown.to_set(), both);
}

/// The dock entries for classes that are already in lower case: the classes
/// of the open windows, the pinned and the ignored classes.
///
/// Without `chaos_mode` the entries are sorted by class. With it they stay
/// in the order in which their classes were first met: classes of windows in
/// the order of the windows, then pinned classes in the order of the list.
pub fn reconcile_classes(
    live: &Vec<String>,
    pinned: &Vec<String>,
    ignored: &Vec<String>,
    chaos_mode: Toggle,
) -> (r: Vec<DockEntry>)
    ensures
        reconciles(models(r@), texts(live@), texts(pinned@), texts(ignored@), chaos_mode == Toggle::On),
{
    let counted = count_classes(live, pinned, ignored);
    proof {
        lemma_tallied(texts(live@), texts(pinned@), texts(ignored@));
    }
    if chaos_mode.is_on() {
        counted
    } else {
        let sorted = sort_entries(counted);
        proof {
            lemma_sorted_reconciles(models(sorted@), texts(live@), texts(pinned@), texts(ignored@));
        }
        sorted
    }
}

/// The entries of the dock for the open windows `clients` under the
/// settings `cfg`.
///
/// Classes are compared in lower case. A class has an entry where it has a
/// window or is pinned, unless it is ignored. The entry counts the windows
/// of the class. Without `chaos_mode` the entries are sorted by class; with
/// it they stay in the order in which their classes were first met, windows
/// before pinned classes.
pub fn reconcile(clients: &Vec<HyprlandClient>, cfg: &ConfigSettings) -> (r: Vec<DockEntry>)
    ensures
        reconciles(
            models(r@),
            normalized(client_classes(clients@)),
            normalized(cfg@.pinned_applications),
            normalized(cfg@.ignore_applications),
            cfg@.chaos_mode,
        ),
        forall|i: int, j: int|
            0 <= i < r.len() && 0 <= j < cfg.ignore_applications.len() ==> (#[trigger] r[i]).class@
                != lowercase((#[trigger] cfg.ignore_applications[j])@),
        forall|i: int|
            0 <= i < r.len() ==> (#[trigger] r[i]).window_count == occurrences(
                normalized(client_classes(clients@)),
                r[i].class@,
            ),
        !cfg@.chaos_mode ==> ascending(models(r@)),
{
    let live = window_classes(clients);
    let pinned = normalize(&cfg.pinned_applications);
    let ignored = normalize(&cfg.ignore_applications);
    let r = reconcile_classes(&live, &pinned, &ignored, cfg.chaos_mode);
    proof {
        lemma_ignored_never_shown(
            models(r@),
            texts(live@),
            texts(pinned@),
            texts(ignored@),
            cfg@.chaos_mode,
        );
        assert forall|i: int, j: int|
            0 <= i < r.len() && 0 <= j < cfg.ignore_applications.len() implies (#[trigger] r[i]).class@
            != lowercase((#[trigger] cfg.ignore_applications[j])@) by {
            assert(models(r@)[i].class == r[i].class@);
            assert(texts(ignored@)[j] == lowercase(cfg.ignore_applications[j]@));
        }
        assert forall|i: int| 0 <= i < r.len() implies (#[trigger] r[i]).window_count == occurrences(
            normalized(client_classes(clients@)),
            r[i].class@,
        ) by {
            assert(models(r@)[i].window_count == r[i].window_count);
        }
    }
    r
}

} // verus!
