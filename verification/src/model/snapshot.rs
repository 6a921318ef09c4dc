//! Sorted list forms of the import and string tables, for stable output.
use crate::catalog::{lemma_insert_to_set, lemma_lex_total, lemma_lex_trans, lex_less, lex_lt, sorted_strict};
use crate::formats::imp::{resolved, Import, ImportView, War3MapImp};
use crate::formats::wts::War3MapWts;
use crate::reader::views;
use crate::text::char_vec;
use vstd::prelude::*;
use vstd::std_specs::iter::IteratorSpec;

verus! {

broadcast use vstd::std_specs::hash::group_hash_axioms;

/// Single import path as exposed to callers.
#[derive(Debug, Clone)]
pub struct ImportEntry {
    /// Resolved in-archive path (standard imports carry the
    /// `war3mapimported\` prefix).
    pub path: String,
    /// Flag byte: 8 = standard, 13 = custom; older tools write 0/1 or 10.
    pub is_custom: u8,
}

/// An import entry as the library sees it.
pub struct ImportEntryView {
    pub path: Seq<char>,
    pub is_custom: u8,
}

impl View for ImportEntry {
    type V = ImportEntryView;

    open spec fn view(&self) -> ImportEntryView {
        ImportEntryView { path: self.path@, is_custom: self.is_custom }
    }
}

impl vstd::std_specs::convert::FromSpecImpl<&Import> for ImportEntry {
    open spec fn obeys_from_spec() -> bool {
        true
    }

    open spec fn from_spec(import: &Import) -> ImportEntry {
        ImportEntry { path: import.path, is_custom: import.is_custom }
    }
}

impl From<&Import> for ImportEntry {
    /// The entry of an import, under its path as stored.
    fn from(import: &Import) -> (r: ImportEntry) {
        ImportEntry { path: import.path.clone(), is_custom: import.is_custom }
    }
}

/// Single string table entry as exposed to callers.
#[derive(Debug, Clone)]
pub struct StringTableEntry {
    pub id: i32,
    pub value: String,
}

/// A string table entry as the library sees it.
pub struct StringTableEntryView {
    pub id: i32,
    pub value: Seq<char>,
}

impl View for StringTableEntry {
    type V = StringTableEntryView;

    open spec fn view(&self) -> StringTableEntryView {
        StringTableEntryView { id: self.id, value: self.value@ }
    }
}

/// The resolved paths of import entries, in order.
pub open spec fn resolved_paths(es: Seq<ImportView>) -> Seq<Seq<char>> {
    es.map_values(|e: ImportView| resolved(e))
}

/// The flag of the first entry whose resolved path is `path`.
pub open spec fn first_flag(es: Seq<ImportView>, path: Seq<char>) -> u8
    decreases es.len(),
{
    if es.len() == 0 {
        0
    } else if resolved(es[0]) == path {
        es[0].is_custom
    } else {
        first_flag(es.skip(1), path)
    }
}

proof fn lemma_first_flag_push(es: Seq<ImportView>, e: ImportView, path: Seq<char>)
    ensures
        first_flag(es.push(e), path) == if resolved_paths(es).contains(path) {
            first_flag(es, path)
        } else if resolved(e) == path {
            e.is_custom
        } else {
            0
        },
    decreases es.len(),
{
    if es.len() == 0 {
        assert(es.push(e).skip(1) =~= Seq::<ImportView>::empty());
        assert(first_flag(Seq::<ImportView>::empty(), path) == 0);
        assert(es.push(e)[0] == e);
        assert(!resolved_paths(es).contains(path));
    } else {
        assert(es.push(e).skip(1) =~= es.skip(1).push(e));
        assert(es.push(e)[0] == es[0]);
        lemma_first_flag_push(es.skip(1), e, path);
        if resolved(es[0]) != path {
            assert(resolved_paths(es).contains(path) == resolved_paths(es.skip(1)).contains(path)) by {
                if resolved_paths(es).contains(path) {
                    let i = choose|i: int| 0 <= i < resolved_paths(es).len() && resolved_paths(es)[i] == path;
                    assert(i > 0);
                    assert(resolved_paths(es.skip(1))[i - 1] == path);
                }
                if resolved_paths(es.skip(1)).contains(path) {
                    let i = choose|i: int|
                        0 <= i < resolved_paths(es.skip(1)).len() && resolved_paths(es.skip(1))[i] == path;
                    assert(resolved_paths(es)[i + 1] == path);
                }
            }
        } else {
            assert(resolved_paths(es)[0] == path);
        }
    }
}

/// The views of import entries.
pub open spec fn entry_paths(v: Seq<ImportEntry>) -> Seq<Seq<char>> {
    v.map_values(|e: ImportEntry| e.path@)
}

impl War3MapImp {
    /// Flatten entries into a path-sorted list with resolved paths, each path
    /// once; a path listed twice keeps the flag of its first entry.
    pub fn entries_sorted(&self) -> (r: Vec<ImportEntry>)
        ensures
            sorted_strict(entry_paths(r@)),
            entry_paths(r@).to_set() == resolved_paths(self@.entries).to_set(),
            forall|k: int|
                0 <= k < r@.len() ==> (#[trigger] r@[k]).is_custom == first_flag(self@.entries, r@[k].path@),
    {
        let ghost es = self@.entries;
        let mut keys: Vec<Vec<char>> = Vec::new();
        let mut out: Vec<ImportEntry> = Vec::new();
        let n = self.entries.len();
        let mut i: usize = 0;
        proof {
            assert(es.take(0) =~= Seq::<ImportView>::empty());
            assert(resolved_paths(es.take(0)).to_set() =~= Set::<Seq<char>>::empty());
            assert(entry_paths(out@).to_set() =~= Set::<Seq<char>>::empty());
        }
        while i < n
            invariant
                n == es.len(),
                es == views(self.entries@),
                i <= n,
                keys@.len() == out@.len(),
                forall|k: int| 0 <= k < keys@.len() ==> (#[trigger] keys@[k])@ == out@[k].path@,
                sorted_strict(entry_paths(out@)),
                entry_paths(out@).to_set() == resolved_paths(es.take(i as int)).to_set(),
                forall|k: int|
                    0 <= k < out@.len() ==> (#[trigger] out@[k]).is_custom == first_flag(
                        es.take(i as int),
                        out@[k].path@,
                    ),
            decreases n - i,
        {
            let ghost before_paths = entry_paths(out@);
            let ghost prefix = es.take(i as int);
            let e = &self.entries[i];
            let path = e.resolved_path();
            let key = char_vec(path.as_str());
            proof {
                assert(es.take(i + 1) =~= prefix.push(es[i as int]));
                assert(resolved_paths(prefix.push(es[i as int])) =~= resolved_paths(prefix).push(key@));
                assert(es[i as int] == e@);
            }
            let m = keys.len();
            let mut p: usize = 0;
            while p < m && lex_less(&keys[p], &key)
                invariant
                    m == keys@.len(),
                    keys@.len() == out@.len(),
                    forall|k: int| 0 <= k < keys@.len() ==> (#[trigger] keys@[k])@ == out@[k].path@,
                    p <= m,
                    forall|j: int| 0 <= j < p ==> lex_lt(#[trigger] out@[j].path@, key@),
                decreases m - p,
            {
                assert(keys@[p as int]@ == out@[p as int].path@);
                p += 1;
            }
            if p < m && !lex_less(&key, &keys[p]) {
                proof {
                    lemma_lex_total(key@, keys@[p as int]@);
                    assert(before_paths[p as int] == key@);
                    assert(resolved_paths(prefix).contains(key@)) by {
                        assert(entry_paths(out@).to_set().contains(key@));
                    }
                    assert(resolved_paths(prefix).to_set().insert(key@) =~= resolved_paths(prefix).to_set());
                    lemma_to_set_push(resolved_paths(prefix), key@);
                    assert forall|k: int| 0 <= k < out@.len() implies (#[trigger] out@[k]).is_custom == first_flag(
                        es.take(i + 1),
                        out@[k].path@,
                    ) by {
                        lemma_first_flag_push(prefix, es[i as int], out@[k].path@);
                        assert(resolved_paths(prefix).contains(out@[k].path@)) by {
                            assert(entry_paths(out@)[k] == out@[k].path@);
                            assert(entry_paths(out@).contains(out@[k].path@));
                            assert(entry_paths(out@).to_set().contains(out@[k].path@));
                            assert(resolved_paths(prefix).to_set().contains(out@[k].path@));
                        }
                    }
                }
            } else {
                proof {
                    assert(!resolved_paths(prefix).contains(key@)) by {
                        if resolved_paths(prefix).contains(key@) {
                            assert(entry_paths(out@).to_set().contains(key@));
                            let j = choose|j: int| 0 <= j < entry_paths(out@).len() && entry_paths(out@)[j] == key@;
                            if j < p {
                                assert(lex_lt(out@[j].path@, key@));
                                crate::catalog::lemma_lex_irreflexive(key@);
                            } else if j == p {
                                assert(lex_lt(key@, out@[j].path@));
                                crate::catalog::lemma_lex_irreflexive(key@);
                            } else {
                                assert(lex_lt(key@, before_paths[p as int]));
                                assert(lex_lt(before_paths[p as int], before_paths[j]));
                                lemma_lex_trans(key@, before_paths[p as int], before_paths[j]);
                                crate::catalog::lemma_lex_irreflexive(key@);
                            }
                        }
                    }
                }
                let ghost k = key@;
                let ghost old_out = out@;
                keys.insert(p, key);
                out.insert(p, ImportEntry { path, is_custom: e.is_custom });
                proof {
                    let new_paths = entry_paths(out@);
                    assert(new_paths =~= before_paths.insert(p as int, k));
                    assert forall|j: int| p <= j < before_paths.len() implies lex_lt(k, #[trigger] before_paths[j]) by {
                        if j > p {
                            lemma_lex_total(k, before_paths[p as int]);
                            lemma_lex_trans(k, before_paths[p as int], before_paths[j]);
                        } else {
                            lemma_lex_total(k, before_paths[p as int]);
                        }
                    }
                    assert forall|a: int, b: int| 0 <= a < b < new_paths.len() implies lex_lt(
                        #[trigger] new_paths[a],
                        #[trigger] new_paths[b],
                    ) by {
                        if a < p && b > p {
                            lemma_lex_trans(before_paths[a], k, before_paths[b - 1]);
                        }
                    }
                    lemma_insert_to_set(before_paths, p as int, k);
                    lemma_to_set_push(resolved_paths(prefix), k);
                    assert forall|q: int| 0 <= q < keys@.len() implies (#[trigger] keys@[q])@ == out@[q].path@ by {
                    }
                    assert forall|q: int| 0 <= q < out@.len() implies (#[trigger] out@[q]).is_custom == first_flag(
                        es.take(i + 1),
                        out@[q].path@,
                    ) by {
                        lemma_first_flag_push(prefix, es[i as int], out@[q].path@);
                        if q < p {
                            assert(out@[q] == old_out[q]);
                            assert(resolved_paths(prefix).contains(old_out[q].path@)) by {
                                assert(before_paths[q] == old_out[q].path@);
                                assert(before_paths.contains(old_out[q].path@));
                                assert(before_paths.to_set().contains(old_out[q].path@));
                                assert(resolved_paths(prefix).to_set().contains(old_out[q].path@));
                            }
                        } else if q > p {
                            assert(out@[q] == old_out[q - 1]);
                            assert(resolved_paths(prefix).contains(old_out[q - 1].path@)) by {
                                assert(before_paths[q - 1] == old_out[q - 1].path@);
                                assert(before_paths.contains(old_out[q - 1].path@));
                                assert(before_paths.to_set().contains(old_out[q - 1].path@));
                                assert(resolved_paths(prefix).to_set().contains(old_out[q - 1].path@));
                            }
                        }
                    }
                }
            }
            i += 1;
        }
        proof {
            assert(es.take(n as int) =~= es);
        }
        out
    }
}

proof fn lemma_to_set_push<T>(s: Seq<T>, x: T)
    ensures
        s.push(x).to_set() == s.to_set().insert(x),
{
    assert(s.push(x) =~= s.insert(s.len() as int, x));
    lemma_insert_to_set(s, s.len() as int, x);
}

/// Ids strictly increasing.
pub open spec fn ids_increasing(ids: Seq<i32>) -> bool {
    forall|i: int, j: int| 0 <= i < j < ids.len() ==> #[trigger] ids[i] < #[trigger] ids[j]
}

fn insert_id(ids: &mut Vec<i32>, id: i32)
    requires
        ids_increasing(old(ids)@),
    ensures
        ids_increasing(final(ids)@),
        final(ids)@.to_set() == old(ids)@.to_set().insert(id),
{
    let n = ids.len();
    let mut p: usize = 0;
    while p < n && ids[p] < id
        invariant
            n == ids@.len(),
            p <= n,
            forall|j: int| 0 <= j < p ==> #[trigger] ids@[j] < id,
        decreases n - p,
    {
        p += 1;
    }
    if p < n && ids[p] == id {
        assert(ids@.to_set().insert(id) =~= ids@.to_set());
        return;
    }
    let ghost before = ids@;
    ids.insert(p, id);
    proof {
        lemma_insert_to_set(before, p as int, id);
    }
}

impl War3MapWts {
    /// Flatten the string map into an id-sorted list.
    pub fn entries_sorted(&self) -> (r: Vec<StringTableEntry>)
        ensures
            ids_increasing(r@.map_values(|e: StringTableEntry| e.id)),
            r@.map_values(|e: StringTableEntry| e.id).to_set() == self@.dom(),
            forall|k: int| 0 <= k < r@.len() ==> self@[(#[trigger] r@[k]).id] == r@[k].value@,
            r@.len() == self@.len(),
    {
        let mut ids: Vec<i32> = Vec::new();
        let ghost all = vstd::std_specs::hash::spec_keys_iter(&self.string_map).remaining();
        for key in it: self.string_map.keys()
            invariant
                it.seq() == all,
                all.take(all.len() as int) == all,
                ids_increasing(ids@),
                ids@.to_set() == it.seq().take(it.index() as int).map_values(|k: &i32| *k).to_set(),
            ensures
                ids_increasing(ids@),
                ids@.to_set() == all.map_values(|k: &i32| *k).to_set(),
        {
            proof {
                let s = it.seq();
                assert(s.take(it.index() + 1).map_values(|k: &i32| *k) =~= s.take(it.index() as int).map_values(
                    |k: &i32| *k,
                ).push(*key));
                lemma_to_set_push(s.take(it.index() as int).map_values(|k: &i32| *k), *key);
            }
            insert_id(&mut ids, *key);
        }
        proof {
            let rem = vstd::std_specs::hash::spec_keys_iter(&self.string_map).remaining();
            assert(rem.map_values(|k: &i32| *k) =~= rem.unref());
            assert(self@.dom() =~= self.string_map@.dom());
            assert(ids@.to_set() =~= self.string_map@.dom());
            assert forall|k: int| 0 <= k < ids@.len() implies self@.dom().contains(#[trigger] ids@[k]) by {
                assert(ids@.to_set().contains(ids@[k]));
            }
        }
        let mut out: Vec<StringTableEntry> = Vec::new();
        let mut i: usize = 0;
        while i < ids.len()
            invariant
                i <= ids@.len(),
                out@.len() == i,
                forall|k: int| 0 <= k < i ==> (#[trigger] out@[k]).id == ids@[k],
                forall|k: int| 0 <= k < i ==> self@[(#[trigger] out@[k]).id] == out@[k].value@,
                forall|k: int| 0 <= k < ids@.len() ==> self@.dom().contains(#[trigger] ids@[k]),
            decreases ids@.len() - i,
        {
            let id = ids[i];
            let value = match self.get(id) {
                Some(v) => String::from_str(v),
                None => String::new(),
            };
            out.push(StringTableEntry { id, value });
            i += 1;
        }
        assert(out@.map_values(|e: StringTableEntry| e.id) =~= ids@);
        proof {
            assert(ids@.no_duplicates()) by {
                assert forall|a: int, b: int| 0 <= a < ids@.len() && 0 <= b < ids@.len() && a != b implies ids@[a]
                    != ids@[b] by {
                    if a < b {
                        assert(ids@[a] < ids@[b]);
                    } else {
                        assert(ids@[b] < ids@[a]);
                    }
                }
            }
            ids@.unique_seq_to_set();
        }
        out
    }
}

} // verus!
