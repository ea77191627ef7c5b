//! The query engine: application search over descriptor listings, and file
//! search over a walk of the home directory.
use vstd::prelude::*;

use crate::text::{
    chars_of, compare_chars, contains_chars, is_substring, lemma_lex_irreflexive,
    lemma_lex_transitive, lex_lt, lower_of, lowercase, starts_with_chars, string_from,
};

verus! {

/// How a result's icon is to be drawn.
pub enum IconDescriptor {
    /// An icon of the active theme, by name.
    ThemedName(String),
    /// The image file at this path, decoded into a 24 by 24 box.
    Bitmap(String),
    /// The generic executable icon.
    Fallback,
}

/// One entry of a search result list.
pub struct SearchResult {
    pub label: String,
    pub path: String,
    pub icon: IconDescriptor,
}

/// One entry of an application directory listing, as the directory yields it.
pub struct AppFile {
    /// The entry's file name, e.g. `firefox.desktop`.
    pub file_name: String,
    /// The entry's full path.
    pub path: String,
}

/// One entry met while walking the home directory.
pub struct WalkEntry {
    /// The entry's file name, its last path component.
    pub file_name: String,
    /// The entry's full path.
    pub path: String,
    /// Whether the entry is a regular file.
    pub is_file: bool,
}

/// A file whose name matched a query: its name and full path.
pub struct FileMatch {
    pub label: String,
    pub path: String,
}

/// The suffix that marks an application descriptor file.
pub open spec fn desktop_suffix() -> Seq<char> {
    seq!['.', 'd', 'e', 's', 'k', 't', 'o', 'p']
}

/// A file name is an application descriptor's name.
pub open spec fn is_descriptor_name(f: Seq<char>) -> bool {
    desktop_suffix().is_suffix_of(f)
}

/// The application name of a descriptor file name: the name without its suffix.
pub open spec fn app_name_of(f: Seq<char>) -> Seq<char> {
    f.subrange(0, f.len() - desktop_suffix().len())
}

/// Application matching: the lowercased query starts the lowercased name.
pub open spec fn app_matches(name: Seq<char>, q: Seq<char>) -> bool {
    lower_of(q).is_prefix_of(lower_of(name))
}

/// File matching: the lowercased query occurs in the lowercased name.
pub open spec fn file_matches(name: Seq<char>, q: Seq<char>) -> bool {
    is_substring(lower_of(q), lower_of(name))
}

/// A listing entry is a descriptor whose application name matches `q`.
pub open spec fn app_hit(e: AppFile, q: Seq<char>) -> bool {
    is_descriptor_name(e.file_name@) && app_matches(app_name_of(e.file_name@), q)
}

/// The `(label, path)` pairs that application search yields for `listing`,
/// in listing order.
pub open spec fn app_results(listing: Seq<AppFile>, q: Seq<char>) -> Seq<(Seq<char>, Seq<char>)>
    decreases listing.len(),
{
    if listing.len() == 0 {
        Seq::empty()
    } else {
        let prev = app_results(listing.drop_last(), q);
        let e = listing.last();
        if app_hit(e, q) {
            prev.push((app_name_of(e.file_name@), e.path@))
        } else {
            prev
        }
    }
}

/// The `(label, path)` view of a result list.
pub open spec fn labels_paths(r: Seq<SearchResult>) -> Seq<(Seq<char>, Seq<char>)> {
    r.map_values(|x: SearchResult| (x.label@, x.path@))
}

/// Application search over the entries of the application directories, in
/// scan order (directory order, then each directory's own order).
/// Each descriptor whose name without the suffix starts, ignoring case, with
/// the query is kept, labelled with that name and drawn with the generic icon.
pub fn search_apps(query: &str, listing: &Vec<AppFile>) -> (r: Vec<SearchResult>)
    ensures
        labels_paths(r@) == app_results(listing@, query@),
        forall|k: int| 0 <= k < r@.len() ==> r@[k].icon is Fallback,
{
    let q = lowercase(query);
    let qc = chars_of(q.as_str());
    let suffix: Vec<char> = vec!['.', 'd', 'e', 's', 'k', 't', 'o', 'p'];
    let mut r: Vec<SearchResult> = Vec::new();
    let mut i: usize = 0;
    while i < listing.len()
        invariant
            i <= listing@.len(),
            qc@ == lower_of(query@),
            suffix@ == desktop_suffix(),
            labels_paths(r@) == app_results(listing@.take(i as int), query@),
            forall|k: int| 0 <= k < r@.len() ==> r@[k].icon is Fallback,
        decreases listing@.len() - i,
    {
        let e = &listing[i];
        let f = chars_of(e.file_name.as_str());
        proof {
            assert(listing@.take(i + 1).drop_last() =~= listing@.take(i as int));
            assert(listing@.take(i + 1).last() == listing@[i as int]);
        }
        if ends_with_chars(&f, &suffix) {
            let stem = string_from(&prefix_of(&f, f.len() - suffix.len()));
            let lower = lowercase(stem.as_str());
            let lc = chars_of(lower.as_str());
            if starts_with_chars(&lc, &qc) {
                let item = SearchResult {
                    label: stem,
                    path: e.path.clone(),
                    icon: IconDescriptor::Fallback,
                };
                let ghost before = r@;
                r.push(item);
                proof {
                    assert(labels_paths(r@) =~= labels_paths(r@.drop_last()).push(
                        (r@.last().label@, r@.last().path@),
                    ));
                    assert(r@.drop_last() =~= before);
                }
            }
        }
        i = i + 1;
    }
    assert(listing@.take(listing@.len() as int) =~= listing@);
    r
}

/// Whether `p` is a suffix of `s`.
fn ends_with_chars(s: &Vec<char>, p: &Vec<char>) -> (r: bool)
    ensures
        r == p@.is_suffix_of(s@),
{
    if p.len() > s.len() {
        return false;
    }
    let n: usize = s.len();
    let off: usize = n - p.len();
    let mut j: usize = 0;
    while j < p.len()
        invariant
            n == s@.len(),
            off + p@.len() == s@.len(),
            j <= p@.len(),
            forall|k: int| 0 <= k < j ==> s@[off + k] == p@[k],
        decreases p@.len() - j,
    {
        if s[off + j] != p[j] {
            assert(s@.subrange(off as int, s@.len() as int)[j as int] != p@[j as int]);
            return false;
        }
        j = j + 1;
    }
    assert(s@.subrange(off as int, s@.len() as int) =~= p@);
    true
}

/// The first `n` characters of `s`.
fn prefix_of(s: &Vec<char>, n: usize) -> (r: Vec<char>)
    requires
        n <= s@.len(),
    ensures
        r@ == s@.subrange(0, n as int),
{
    let mut r: Vec<char> = Vec::new();
    let mut j: usize = 0;
    while j < n
        invariant
            n <= s@.len(),
            j <= n,
            r@ == s@.subrange(0, j as int),
        decreases n - j,
    {
        r.push(s[j]);
        assert(r@ =~= s@.subrange(0, j + 1));
        j = j + 1;
    }
    r
}

/// A walk entry is a regular file whose name matches `q`.
pub open spec fn file_hit(e: WalkEntry, q: Seq<char>) -> bool {
    e.is_file && file_matches(e.file_name@, q)
}

/// Entry `j` is a hit, and no earlier hit has the same path.
pub open spec fn first_hit(es: Seq<WalkEntry>, q: Seq<char>, j: int) -> bool {
    &&& 0 <= j < es.len()
    &&& file_hit(es[j], q)
    &&& forall|j2: int| 0 <= j2 < j && file_hit(es[j2], q) ==> es[j2].path@ != es[j].path@
}

/// Paths strictly increase along the list, so no path occurs twice.
pub open spec fn sorted_by_path(r: Seq<FileMatch>) -> bool {
    forall|i: int, j: int| 0 <= i < j < r.len() ==> lex_lt(#[trigger] r[i].path@, #[trigger] r[j].path@)
}

/// Entries that share a path agree on name and kind, as in any walk of one tree.
pub open spec fn paths_consistent(es: Seq<WalkEntry>) -> bool {
    forall|i: int, j: int|
        0 <= i < es.len() && 0 <= j < es.len() && (#[trigger] es[i]).path@ == (#[trigger] es[j]).path@
            ==> es[i].file_name@ == es[j].file_name@ && es[i].is_file == es[j].is_file
}

/// Result `m` is the name and path of walk entry `j`.
pub open spec fn from_entry(m: FileMatch, e: WalkEntry) -> bool {
    m.label@ == e.file_name@ && m.path@ == e.path@
}

/// File search over the entries of a walk of the home directory.
/// Every regular file whose name contains the query, ignoring case, is kept;
/// the list is sorted by path, and of entries sharing a path the first one met
/// stays.
pub fn get_files(query: &str, entries: &Vec<WalkEntry>) -> (r: Vec<FileMatch>)
    ensures
        sorted_by_path(r@),
        forall|k: int| 0 <= k < r@.len() ==> from_first_hit(#[trigger] r@[k], entries@, query@),
        forall|j: int|
            0 <= j < entries@.len() && file_hit(#[trigger] entries@[j], query@) ==> holds_path(
                r@,
                entries@[j].path@,
            ),
        paths_consistent(entries@) ==> forall|j: int|
            0 <= j < entries@.len() ==> (holds_path(r@, entries@[j].path@) <==> file_hit(
                #[trigger] entries@[j],
                query@,
            )),
{
    let q = lowercase(query);
    let qc = chars_of(q.as_str());
    let mut r: Vec<FileMatch> = Vec::new();
    let mut keys: Vec<Vec<char>> = Vec::new();
    let mut i: usize = 0;
    while i < entries.len()
        invariant
            i <= entries@.len(),
            qc@ == lower_of(query@),
            keys@.len() == r@.len(),
            forall|k: int| 0 <= k < r@.len() ==> (#[trigger] keys@[k])@ == r@[k].path@,
            sorted_by_path(r@),
            forall|k: int| 0 <= k < r@.len() ==> from_first_hit(#[trigger] r@[k], entries@, query@),
            covers(r@, entries@, query@, i as int),
        decreases entries@.len() - i,
    {
        let e = &entries[i];
        let mut hit = false;
        if e.is_file {
            let lower = lowercase(e.file_name.as_str());
            let lc = chars_of(lower.as_str());
            hit = contains_chars(&lc, &qc);
        }
        if hit {
            let pc = chars_of(e.path.as_str());
            let (pos, found) = find_slot(&keys, &pc);
            let ghost old_r = r@;
            if found {
                proof {
                    lemma_step_repeat(r@, entries@, query@, i as int, pos as int);
                }
            } else {
                proof {
                    lemma_slot_fresh(r@, keys@, pc@, pos as int);
                    assert(pc@ == entries@[i as int].path@);
                }
                let m = FileMatch { label: e.file_name.clone(), path: e.path.clone() };
                insert_at(&mut r, &mut keys, pos, m, pc);
                proof {
                    lemma_step_insert(old_r, r@, entries@, query@, i as int, pos as int);
                }
            }
        }
        i = i + 1;
    }
    proof {
        if paths_consistent(entries@) {
            assert forall|j: int| 0 <= j < entries@.len() && holds_path(
                r@,
                entries@[j].path@,
            ) implies file_hit(#[trigger] entries@[j], query@) by {
                let k = choose|k: int| 0 <= k < r@.len() && (#[trigger] r@[k]).path@ == entries@[j].path@;
                assert(from_first_hit(r@[k], entries@, query@));
                let j2 = choose|j2: int|
                    first_hit(entries@, query@, j2) && #[trigger] from_entry(r@[k], entries@[j2]);
                assert(entries@[j2].path@ == entries@[j].path@);
            }
        }
    }
    r
}

/// The path `p` is held by some result.
pub open spec fn holds_path(r: Seq<FileMatch>, p: Seq<char>) -> bool {
    exists|k: int| 0 <= k < r.len() && (#[trigger] r[k]).path@ == p
}

/// The result `m` is the name and path of an entry that is a first hit.
pub open spec fn from_first_hit(m: FileMatch, es: Seq<WalkEntry>, q: Seq<char>) -> bool {
    exists|j: int| first_hit(es, q, j) && #[trigger] from_entry(m, es[j])
}

/// The path of every hit among the first `n` entries is held by a result.
spec fn covers(r: Seq<FileMatch>, es: Seq<WalkEntry>, q: Seq<char>, n: int) -> bool {
    forall|j: int| 0 <= j < n && file_hit(#[trigger] es[j], q) ==> holds_path(r, es[j].path@)
}

proof fn lemma_step_repeat(r: Seq<FileMatch>, es: Seq<WalkEntry>, q: Seq<char>, i: int, pos: int)
    requires
        0 <= i < es.len(),
        0 <= pos < r.len(),
        r[pos].path@ == es[i].path@,
        covers(r, es, q, i),
    ensures
        covers(r, es, q, i + 1),
{
    assert(holds_path(r, es[i].path@));
}

/// A path that belongs strictly between the keys is none of the paths held.
proof fn lemma_slot_fresh(r: Seq<FileMatch>, keys: Seq<Vec<char>>, x: Seq<char>, pos: int)
    requires
        keys.len() == r.len(),
        forall|k: int| 0 <= k < r.len() ==> (#[trigger] keys[k])@ == r[k].path@,
        sorted_by_path(r),
        0 <= pos <= r.len(),
        forall|k: int| 0 <= k < pos ==> lex_lt((#[trigger] keys[k])@, x),
        pos < r.len() ==> lex_lt(x, keys[pos]@),
    ensures
        !holds_path(r, x),
{
    assert forall|k: int| 0 <= k < r.len() implies (#[trigger] r[k]).path@ != x by {
        lemma_lex_irreflexive(x);
        if k < pos {
            assert(lex_lt(keys[k]@, x));
        } else {
            if k > pos {
                assert(lex_lt(r[pos].path@, r[k].path@));
                lemma_lex_transitive(x, keys[pos]@, keys[k]@);
            }
            assert(lex_lt(x, keys[k]@));
        }
    }
}

proof fn lemma_step_insert(
    old_r: Seq<FileMatch>,
    r: Seq<FileMatch>,
    es: Seq<WalkEntry>,
    q: Seq<char>,
    i: int,
    pos: int,
)
    requires
        0 <= i < es.len(),
        file_hit(es[i], q),
        0 <= pos <= old_r.len(),
        !holds_path(old_r, es[i].path@),
        from_entry(r[pos], es[i]),
        r == old_r.insert(pos, r[pos]),
        forall|k: int| 0 <= k < old_r.len() ==> from_first_hit(#[trigger] old_r[k], es, q),
        covers(old_r, es, q, i),
    ensures
        forall|k: int| 0 <= k < r.len() ==> from_first_hit(#[trigger] r[k], es, q),
        covers(r, es, q, i + 1),
{
    assert forall|j2: int| 0 <= j2 < i && file_hit(es[j2], q) implies es[j2].path@
        != es[i].path@ by {
        assert(holds_path(old_r, es[j2].path@));
    }
    assert(first_hit(es, q, i));
    assert forall|k: int| 0 <= k < r.len() implies from_first_hit(#[trigger] r[k], es, q) by {
        if k < pos {
            assert(r[k] == old_r[k]);
        } else if k == pos {
            assert(from_entry(r[k], es[i]));
        } else {
            assert(r[k] == old_r[k - 1]);
        }
    }
    assert forall|j: int| 0 <= j < i + 1 && file_hit(#[trigger] es[j], q) implies holds_path(
        r,
        es[j].path@,
    ) by {
        if j < i {
            assert(holds_path(old_r, es[j].path@));
            let k0 = choose|k: int| 0 <= k < old_r.len() && (#[trigger] old_r[k]).path@ == es[j].path@;
            if k0 < pos {
                assert(r[k0] == old_r[k0]);
            } else {
                assert(r[k0 + 1] == old_r[k0]);
            }
        } else {
            assert(r[pos].path@ == es[j].path@);
        }
    }
}

/// Puts `m`, whose path is `pc`, at `pos` of the list and of its keys, where
/// it keeps the paths strictly increasing.
fn insert_at(
    r: &mut Vec<FileMatch>,
    keys: &mut Vec<Vec<char>>,
    pos: usize,
    m: FileMatch,
    pc: Vec<char>,
)
    requires
        old(keys)@.len() == old(r)@.len(),
        forall|k: int| 0 <= k < old(r)@.len() ==> (#[trigger] old(keys)@[k])@ == old(r)@[k].path@,
        sorted_by_path(old(r)@),
        pos <= old(r)@.len(),
        forall|k: int| 0 <= k < pos ==> lex_lt((#[trigger] old(keys)@[k])@, pc@),
        pos < old(r)@.len() ==> lex_lt(pc@, old(keys)@[pos as int]@),
        m.path@ == pc@,
    ensures
        final(r)@ == old(r)@.insert(pos as int, m),
        final(keys)@.len() == final(r)@.len(),
        forall|k: int| 0 <= k < final(r)@.len() ==> (#[trigger] final(keys)@[k])@ == final(r)@[k].path@,
        sorted_by_path(final(r)@),
{
    let ghost x = pc@;
    let ghost old_r = r@;
    let ghost old_keys = keys@;
    r.insert(pos, m);
    keys.insert(pos, pc);
    assert forall|k: int| 0 <= k < r@.len() implies (#[trigger] keys@[k])@ == r@[k].path@ by {
        if k < pos {
            assert(keys@[k] == old_keys[k]);
        } else if k > pos {
            assert(keys@[k] == old_keys[k - 1]);
        }
    }
    assert forall|a: int, b: int| 0 <= a < b < r@.len() implies lex_lt(
        #[trigger] r@[a].path@,
        #[trigger] r@[b].path@,
    ) by {
        if b < pos {
            assert(lex_lt(old_r[a].path@, old_r[b].path@));
        } else if b == pos {
            assert(lex_lt(old_keys[a]@, x));
        } else if a < pos {
            assert(lex_lt(old_r[a].path@, old_r[b - 1].path@));
        } else if a == pos {
            if b - 1 > pos {
                assert(lex_lt(old_r[pos as int].path@, old_r[b - 1].path@));
                lemma_lex_transitive(x, old_keys[pos as int]@, old_keys[b - 1]@);
            }
        } else {
            assert(lex_lt(old_r[a - 1].path@, old_r[b - 1].path@));
        }
    }
}

/// Where `x` belongs in the strictly increasing `keys`: every key before
/// `pos` is smaller, and the key at `pos`, if any, is equal (`found`) or larger.
fn find_slot(keys: &Vec<Vec<char>>, x: &Vec<char>) -> (res: (usize, bool))
    ensures
        res.0 <= keys@.len(),
        forall|k: int| 0 <= k < res.0 ==> lex_lt((#[trigger] keys@[k])@, x@),
        res.1 ==> res.0 < keys@.len() && keys@[res.0 as int]@ == x@,
        !res.1 && res.0 < keys@.len() ==> lex_lt(x@, keys@[res.0 as int]@),
{
    let mut pos: usize = 0;
    while pos < keys.len()
        invariant
            pos <= keys@.len(),
            forall|k: int| 0 <= k < pos ==> lex_lt((#[trigger] keys@[k])@, x@),
        decreases keys@.len() - pos,
    {
        let c = compare_chars(&keys[pos], x);
        if c == 0 {
            return (pos, true);
        } else if c == 1 {
            return (pos, false);
        }
        pos = pos + 1;
    }
    (pos, false)
}

/// The `(label, path)` pair that a descriptor entry would give.
pub open spec fn app_pair(e: AppFile) -> (Seq<char>, Seq<char>) {
    (app_name_of(e.file_name@), e.path@)
}

/// `pair` is what some matching descriptor entry of `listing` gives.
pub open spec fn from_app_hit(listing: Seq<AppFile>, q: Seq<char>, pair: (Seq<char>, Seq<char>)) -> bool {
    exists|j: int| 0 <= j < listing.len() && app_hit(listing[j], q) && #[trigger] app_pair(listing[j]) == pair
}

/// Every pair that application search yields is the name and path of a
/// descriptor entry whose name matches.
pub proof fn lemma_app_results_from_hits(listing: Seq<AppFile>, q: Seq<char>)
    ensures
        forall|k: int|
            0 <= k < app_results(listing, q).len() ==> from_app_hit(
                listing,
                q,
                #[trigger] app_results(listing, q)[k],
            ),
    decreases listing.len(),
{
    if listing.len() > 0 {
        let prev = listing.drop_last();
        lemma_app_results_from_hits(prev, q);
        let r = app_results(listing, q);
        let rp = app_results(prev, q);
        let e = listing.last();
        assert forall|k: int| 0 <= k < r.len() implies from_app_hit(
            listing,
            q,
            #[trigger] app_results(listing, q)[k],
        ) by {
            if k < rp.len() {
                assert(r[k] == rp[k]);
                assert(from_app_hit(prev, q, rp[k]));
                let j = choose|j: int|
                    0 <= j < prev.len() && app_hit(prev[j], q) && #[trigger] app_pair(prev[j]) == rp[k];
                assert(listing[j] == prev[j]);
            } else {
                assert(r[k] == app_pair(e));
                assert(listing[listing.len() - 1] == e);
            }
        }
    }
}

/// Application search includes a descriptor's name exactly when the query,
/// ignoring case, is a prefix of that name.
pub proof fn lemma_app_search_includes(listing: Seq<AppFile>, q: Seq<char>, j: int)
    requires
        0 <= j < listing.len(),
        is_descriptor_name(listing[j].file_name@),
    ensures
        app_results(listing, q).contains((app_name_of(listing[j].file_name@), listing[j].path@))
            <==> app_matches(app_name_of(listing[j].file_name@), q),
    decreases listing.len(),
{
    let pair = (app_name_of(listing[j].file_name@), listing[j].path@);
    let r = app_results(listing, q);
    if app_matches(pair.0, q) {
        lemma_app_results_keep(listing, q, j);
    }
    if r.contains(pair) {
        lemma_app_results_from_hits(listing, q);
        let k = choose|k: int| 0 <= k < r.len() && r[k] == pair;
        assert(from_app_hit(listing, q, r[k]));
        let j2 = choose|j2: int|
            0 <= j2 < listing.len() && app_hit(listing[j2], q) && #[trigger] app_pair(listing[j2]) == pair;
    }
}

/// A descriptor entry that matches is in the application search results.
proof fn lemma_app_results_keep(listing: Seq<AppFile>, q: Seq<char>, j: int)
    requires
        0 <= j < listing.len(),
        app_hit(listing[j], q),
    ensures
        app_results(listing, q).contains((app_name_of(listing[j].file_name@), listing[j].path@)),
    decreases listing.len(),
{
    let pair = (app_name_of(listing[j].file_name@), listing[j].path@);
    let prev = listing.drop_last();
    if j == listing.len() - 1 {
        assert(app_results(listing, q) == app_results(prev, q).push(pair));
        assert(app_results(listing, q)[app_results(prev, q).len() as int] == pair);
    } else {
        assert(prev[j] == listing[j]);
        lemma_app_results_keep(prev, q, j);
        let k = choose|k: int| 0 <= k < app_results(prev, q).len() && app_results(prev, q)[k] == pair;
        assert(app_results(listing, q)[k] == pair);
    }
}

/// A list sorted by path holds no path twice.
pub proof fn lemma_sorted_paths_distinct(r: Seq<FileMatch>)
    requires
        sorted_by_path(r),
    ensures
        forall|i: int, j: int| 0 <= i < j < r.len() ==> r[i].path@ != r[j].path@,
{
    assert forall|i: int, j: int| 0 <= i < j < r.len() implies r[i].path@ != r[j].path@ by {
        assert(lex_lt(r[i].path@, r[j].path@));
        lemma_lex_irreflexive(r[i].path@);
    }
}

/// Application search sees the query only through its lowercase form:
/// queries that lowercase alike give the same results.
pub proof fn lemma_app_search_case_blind(listing: Seq<AppFile>, q1: Seq<char>, q2: Seq<char>)
    requires
        lower_of(q1) == lower_of(q2),
    ensures
        app_results(listing, q1) == app_results(listing, q2),
    decreases listing.len(),
{
    if listing.len() > 0 {
        lemma_app_search_case_blind(listing.drop_last(), q1, q2);
    }
}

/// File search sees the query only through its lowercase form: queries that
/// lowercase alike select the same entries, and so the same results.
pub proof fn lemma_file_search_case_blind(es: Seq<WalkEntry>, q1: Seq<char>, q2: Seq<char>)
    requires
        lower_of(q1) == lower_of(q2),
    ensures
        forall|j: int| 0 <= j < es.len() ==> (file_hit(#[trigger] es[j], q1) <==> file_hit(es[j], q2)),
        forall|j: int| 0 <= j < es.len() ==> (first_hit(es, q1, j) <==> #[trigger] first_hit(es, q2, j)),
{
}

} // verus!
