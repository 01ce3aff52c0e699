//! Rule store: the key-value semantics of the rule directory, with
//! filename as key and raw file text as value. Writing overwrites silently;
//! deleting a missing file fails; listing returns the `.rules` filenames in
//! strict lexicographic order. The caller performs the actual filesystem
//! operations and keeps them in step with this model; everything stated
//! here — what a write leaves behind, what a read returns, what a listing
//! holds — is proved against the map view.

use vstd::prelude::*;
use vstd::string::StrSliceExecFns;
use vstd::string::StringExecFns;

use crate::errors::IoError;
use crate::rule::RuleRecordView;
use crate::rule::rule_text_of;
use crate::sort::lemma_insert_sorted_by_at;
use crate::sort::lemma_sort_by_key_multiset;
use crate::sort::lemma_sort_by_key_contains;
use crate::sort::lemma_sort_by_key_sorted;
use crate::sort::sort_by_key;
use crate::sort::sorted_by_key;
use crate::text::lex_le;
use crate::text::lex_lt;
use crate::text::str_eq;
use crate::text::str_lex_lt;

verus! {

/// The suffix that marks a rule file.
pub open spec fn has_rules_suffix(s: Seq<char>) -> bool {
    s.len() >= 6 && s.subrange(s.len() - 6, s.len() as int) == ".rules"@
}

/// Decide whether a filename carries the rule suffix.
pub fn check_rules_suffix(name: &str) -> (r: bool)
    ensures
        r == has_rules_suffix(name@),
{
    let n = name.unicode_len();
    if n < 6 {
        return false;
    }
    let tail = name.substring_char(n - 6, n);
    str_eq(tail, ".rules")
}

/// One rule file of the model: its filename and its raw text.
struct StoredFile {
    name: String,
    contents: String,
}

/// The rule directory as a key-value model.
pub struct RuleStore {
    files: Vec<StoredFile>,
}

/// The map a sequence of stored files denotes; later entries win.
spec fn map_of(files: Seq<StoredFile>) -> Map<Seq<char>, Seq<char>>
    decreases files.len(),
{
    if files.len() == 0 {
        Map::empty()
    } else {
        map_of(files.drop_last()).insert(files.last().name@, files.last().contents@)
    }
}

/// No filename occurs twice.
spec fn unique_names(files: Seq<StoredFile>) -> bool {
    forall|i: int, j: int| 0 <= i < j < files.len() ==> files[i].name@ != files[j].name@
}

impl View for RuleStore {
    type V = Map<Seq<char>, Seq<char>>;

    closed spec fn view(&self) -> Map<Seq<char>, Seq<char>> {
        map_of(self.files@)
    }
}

proof fn lemma_map_of_contains(files: Seq<StoredFile>, k: Seq<char>)
    ensures
        map_of(files).contains_key(k) <==> exists|i: int|
            0 <= i < files.len() && #[trigger] files[i].name@ == k,
    decreases files.len(),
{
    if files.len() > 0 {
        let dl = files.drop_last();
        lemma_map_of_contains(dl, k);
        if files.last().name@ == k {
            assert(files[files.len() - 1].name@ == k);
        } else if map_of(files).contains_key(k) {
            let i = choose|i: int| 0 <= i < dl.len() && #[trigger] dl[i].name@ == k;
            assert(files[i].name@ == k);
        } else {
            assert(forall|i: int| 0 <= i < dl.len() ==> dl[i] == files[i]);
        }
    }
}

proof fn lemma_map_of_get(files: Seq<StoredFile>, i: int)
    requires
        unique_names(files),
        0 <= i < files.len(),
    ensures
        map_of(files).contains_key(files[i].name@),
        map_of(files)[files[i].name@] == files[i].contents@,
    decreases files.len(),
{
    if i == files.len() - 1 {
    } else {
        let dl = files.drop_last();
        assert(dl[i] == files[i]);
        lemma_map_of_get(dl, i);
        assert(files.last().name@ != files[i].name@);
    }
}

proof fn lemma_map_of_remove(files: Seq<StoredFile>, i: int)
    requires
        unique_names(files),
        0 <= i < files.len(),
    ensures
        map_of(files.remove(i)) == map_of(files).remove(files[i].name@),
    decreases files.len(),
{
    let k = files[i].name@;
    if i == files.len() - 1 {
        let dl = files.drop_last();
        assert(files.remove(i) =~= dl);
        lemma_map_of_contains(dl, k);
        assert(forall|j: int| 0 <= j < dl.len() ==> dl[j] == files[j]);
        assert(!map_of(dl).contains_key(k));
        assert(map_of(files).remove(k) =~= map_of(dl));
    } else {
        let dl = files.drop_last();
        let lastf = files.last();
        assert(forall|j: int| 0 <= j < dl.len() ==> dl[j] == files[j]);
        assert(files.remove(i).drop_last() =~= dl.remove(i));
        assert(files.remove(i).last() == lastf);
        assert(files.remove(i).len() == files.len() - 1);
        lemma_map_of_remove(dl, i);
        assert(map_of(files.remove(i)) == map_of(dl.remove(i)).insert(lastf.name@, lastf.contents@));
        assert(lastf.name@ != k);
        assert(map_of(dl).remove(k).insert(lastf.name@, lastf.contents@) =~= map_of(dl).insert(
            lastf.name@,
            lastf.contents@,
        ).remove(k));
    }
}

impl RuleStore {
    /// Whether the model is well formed: one entry per filename.
    pub closed spec fn wf(&self) -> bool {
        unique_names(self.files@)
    }

    /// An empty rule directory.
    pub fn new() -> (s: RuleStore)
        ensures
            s.wf(),
            s@ == Map::<Seq<char>, Seq<char>>::empty(),
    {
        RuleStore { files: Vec::new() }
    }

    /// Write `contents` under `name`, silently overwriting an existing
    /// file of that name.
    pub fn write(&mut self, name: &str, contents: &str)
        requires
            old(self).wf(),
        ensures
            final(self).wf(),
            final(self)@ == old(self)@.insert(name@, contents@),
    {
        let n = self.files.len();
        let mut i: usize = 0;
        while i < n
            invariant
                0 <= i <= n,
                n == self.files@.len(),
                *self == *old(self),
                old(self).wf(),
                forall|j: int| 0 <= j < i ==> self.files@[j].name@ != name@,
            decreases n - i,
        {
            if str_eq(self.files[i].name.as_str(), name) {
                let ghost before = self.files@;
                proof {
                    lemma_map_of_remove(before, i as int);
                }
                self.files.remove(i);
                self.files.push(
                    StoredFile { name: String::from_str(name), contents: String::from_str(contents) },
                );
                proof {
                    let after = self.files@;
                    assert(after.drop_last() =~= before.remove(i as int));
                    assert(after.last().name@ == name@ && after.last().contents@ == contents@);
                    assert(map_of(after) == map_of(before.remove(i as int)).insert(name@, contents@));
                    assert(map_of(before).remove(name@).insert(name@, contents@) =~= map_of(
                        before,
                    ).insert(name@, contents@));
                    assert forall|a: int, b: int| 0 <= a < b < after.len() implies after[a].name@
                        != after[b].name@ by {
                        if b < after.len() - 1 {
                            assert(after[a] == before.remove(i as int)[a]);
                            assert(after[b] == before.remove(i as int)[b]);
                            assert(before.remove(i as int)[a] == (if a < i {
                                before[a]
                            } else {
                                before[a + 1]
                            }));
                            assert(before.remove(i as int)[b] == (if b < i {
                                before[b]
                            } else {
                                before[b + 1]
                            }));
                        } else {
                            assert(after[b].name@ == name@);
                            assert(after[a] == before.remove(i as int)[a]);
                            let orig = if a < i {
                                a
                            } else {
                                a + 1
                            };
                            assert(after[a] == before[orig]);
                            assert(before[orig].name@ != name@);
                        }
                    }
                }
                return;
            }
            i = i + 1;
        }
        let ghost before = self.files@;
        self.files.push(
            StoredFile { name: String::from_str(name), contents: String::from_str(contents) },
        );
        proof {
            let after = self.files@;
            assert(after.drop_last() =~= before);
            assert(map_of(after) == map_of(before).insert(name@, contents@));
            assert forall|a: int, b: int| 0 <= a < b < after.len() implies after[a].name@
                != after[b].name@ by {
                if b == after.len() - 1 {
                    assert(after[a] == before[a]);
                    assert(before[a].name@ != name@);
                } else {
                    assert(after[a] == before[a] && after[b] == before[b]);
                }
            }
        }
    }

    /// Read the raw text stored under `name`, if any.
    pub fn read(&self, name: &str) -> (r: Option<String>)
        requires
            self.wf(),
        ensures
            match r {
                Some(c) => self@.contains_key(name@) && c@ == self@[name@],
                None => !self@.contains_key(name@),
            },
    {
        let n = self.files.len();
        let mut i: usize = 0;
        while i < n
            invariant
                0 <= i <= n,
                n == self.files@.len(),
                self.wf(),
                forall|j: int| 0 <= j < i ==> self.files@[j].name@ != name@,
            decreases n - i,
        {
            if str_eq(self.files[i].name.as_str(), name) {
                proof {
                    lemma_map_of_get(self.files@, i as int);
                }
                return Some(self.files[i].contents.clone());
            }
            i = i + 1;
        }
        proof {
            lemma_map_of_contains(self.files@, name@);
        }
        None
    }

    /// Delete the file stored under `name`; a missing file is an error.
    pub fn delete(&mut self, name: &str) -> (r: Result<(), IoError>)
        requires
            old(self).wf(),
        ensures
            final(self).wf(),
            match r {
                Ok(()) => old(self)@.contains_key(name@) && final(self)@ == old(self)@.remove(
                    name@,
                ),
                Err(e) => {
                    &&& !old(self)@.contains_key(name@)
                    &&& e == IoError::NotFound
                    &&& final(self)@ == old(self)@
                },
            },
    {
        let n = self.files.len();
        let mut i: usize = 0;
        while i < n
            invariant
                0 <= i <= n,
                n == self.files@.len(),
                *self == *old(self),
                old(self).wf(),
                forall|j: int| 0 <= j < i ==> self.files@[j].name@ != name@,
            decreases n - i,
        {
            if str_eq(self.files[i].name.as_str(), name) {
                let ghost before = self.files@;
                proof {
                    lemma_map_of_get(before, i as int);
                    lemma_map_of_remove(before, i as int);
                }
                self.files.remove(i);
                proof {
                    let after = self.files@;
                    assert forall|a: int, b: int| 0 <= a < b < after.len() implies after[a].name@
                        != after[b].name@ by {
                        assert(after[a] == (if a < i {
                            before[a]
                        } else {
                            before[a + 1]
                        }));
                        assert(after[b] == (if b < i {
                            before[b]
                        } else {
                            before[b + 1]
                        }));
                    }
                }
                return Ok(());
            }
            i = i + 1;
        }
        proof {
            lemma_map_of_contains(self.files@, name@);
        }
        Err(IoError::NotFound)
    }

    /// List the filenames carrying the rule suffix, in strict lexicographic
    /// order: every listed name is stored and suffixed, every stored
    /// suffixed name is listed, and no name is listed twice.
    pub fn list_rule_files(&self) -> (r: Vec<String>)
        requires
            self.wf(),
        ensures
            forall|i: int|
                0 <= i < r@.len() ==> self@.contains_key(#[trigger] r@[i]@) && has_rules_suffix(
                    r@[i]@,
                ),
            forall|k: Seq<char>|
                #[trigger] self@.contains_key(k) && has_rules_suffix(k) ==> name_views(
                    r@,
                ).contains(k),
            forall|i: int, j: int| 0 <= i < j < r@.len() ==> lex_lt(r@[i]@, r@[j]@),
            forall|i: int, j: int| 0 <= i < j < r@.len() ==> r@[i]@ != r@[j]@,
    {
        let n = self.files.len();
        let mut sel: Vec<String> = Vec::new();
        let mut i: usize = 0;
        while i < n
            invariant
                0 <= i <= n,
                n == self.files@.len(),
                self.wf(),
                forall|t: int|
                    0 <= t < sel@.len() ==> has_rules_suffix(#[trigger] sel@[t]@) && (exists|j: int|
                        0 <= j < i && #[trigger] self.files@[j].name@ == sel@[t]@),
                forall|j: int|
                    0 <= j < i && has_rules_suffix(#[trigger] self.files@[j].name@) ==> name_views(
                        sel@,
                    ).contains(self.files@[j].name@),
                forall|t1: int, t2: int| 0 <= t1 < t2 < sel@.len() ==> sel@[t1]@ != sel@[t2]@,
            decreases n - i,
        {
            let ghost sel_before = sel@;
            if check_rules_suffix(self.files[i].name.as_str()) {
                sel.push(self.files[i].name.clone());
                proof {
                    assert(sel@.last()@ == self.files@[i as int].name@);
                    assert forall|t1: int, t2: int| 0 <= t1 < t2 < sel@.len() implies sel@[t1]@
                        != sel@[t2]@ by {
                        if t2 == sel@.len() - 1 {
                            assert(sel@[t1] == sel_before[t1]);
                            let j = choose|j: int|
                                0 <= j < i && #[trigger] self.files@[j].name@ == sel_before[t1]@;
                            assert(self.files@[j].name@ != self.files@[i as int].name@);
                        } else {
                            assert(sel@[t1] == sel_before[t1] && sel@[t2] == sel_before[t2]);
                        }
                    }
                    assert forall|j: int|
                        0 <= j < i + 1 && has_rules_suffix(
                            #[trigger] self.files@[j].name@,
                        ) implies name_views(sel@).contains(self.files@[j].name@) by {
                        if j < i {
                            assert(name_views(sel_before).contains(self.files@[j].name@));
                            let t = choose|t: int|
                                0 <= t < name_views(sel_before).len() && name_views(sel_before)[t]
                                    == self.files@[j].name@;
                            assert(name_views(sel@)[t] == self.files@[j].name@);
                        } else {
                            assert(name_views(sel@)[sel@.len() - 1] == self.files@[j].name@);
                        }
                    }
                }
            }
            i = i + 1;
        }
        let ghost selv = name_views(sel@);
        proof {
            assert(selv.take(0) =~= Seq::<Seq<char>>::empty());
            assert(name_views(Seq::<String>::empty()) =~= sort_by_key(name_key(), selv.take(0)));
        }
        let mut out: Vec<String> = Vec::new();
        let mut k: usize = 0;
        while k < sel.len()
            invariant
                0 <= k <= sel@.len(),
                selv == name_views(sel@),
                name_views(out@) == sort_by_key(name_key(), selv.take(k as int)),
                out@.len() == k,
            decreases sel@.len() - k,
        {
            let d = sel[k].clone();
            let ghost out_before = name_views(out@);
            let mut pos: usize = 0;
            while pos < out.len() && !str_lex_lt(d.as_str(), out[pos].as_str())
                invariant
                    0 <= pos <= out@.len(),
                    name_views(out@) == out_before,
                    d@ == selv[k as int],
                    k < selv.len(),
                    forall|j: int| 0 <= j < pos ==> !lex_lt(d@, out_before[j]),
                decreases out@.len() - pos,
            {
                proof {
                    assert(out@[pos as int]@ == out_before[pos as int]);
                }
                pos = pos + 1;
            }
            proof {
                if pos < out@.len() {
                    assert(lex_lt(d@, out_before[pos as int]));
                }
                lemma_insert_sorted_by_at(name_key(), d@, out_before, pos as int);
            }
            out.insert(pos, d);
            proof {
                assert(selv.take(k + 1).drop_last() =~= selv.take(k as int));
                assert(selv.take(k + 1).last() == selv[k as int]);
                assert(name_views(out@) =~= out_before.take(pos as int) + seq![selv[k as int]]
                    + out_before.skip(pos as int));
                assert(name_views(out@) =~= sort_by_key(name_key(), selv.take(k + 1)));
            }
            k = k + 1;
        }
        proof {
            broadcast use vstd::seq_lib::group_to_multiset_ensures;

            assert(selv.take(sel@.len() as int) =~= selv);
            let outv = name_views(out@);
            assert(outv == sort_by_key(name_key(), selv));
            lemma_sort_by_key_multiset(name_key(), selv);
            lemma_sort_by_key_sorted(name_key(), selv);
            assert(selv.no_duplicates());
            selv.lemma_multiset_has_no_duplicates();
            assert forall|x: Seq<char>| outv.to_multiset().contains(x) implies
                outv.to_multiset().count(x) == 1 by {
                assert(outv.to_multiset().count(x) == selv.to_multiset().count(x));
            }
            outv.lemma_multiset_has_no_duplicates_conv();
            assert forall|a: int|
                0 <= a < out@.len() implies self@.contains_key(#[trigger] out@[a]@)
                && has_rules_suffix(out@[a]@) by {
                assert(outv[a] == out@[a]@);
                assert(outv.contains(outv[a]));
                lemma_sort_by_key_contains(name_key(), selv, outv[a]);
                let t = choose|t: int| 0 <= t < selv.len() && selv[t] == outv[a];
                assert(sel@[t]@ == outv[a]);
                assert(has_rules_suffix(sel@[t]@));
                let j = choose|j: int|
                    0 <= j < self.files@.len() && #[trigger] self.files@[j].name@ == sel@[t]@;
                lemma_map_of_contains(self.files@, out@[a]@);
            }
            assert forall|key: Seq<char>|
                #[trigger] self@.contains_key(key) && has_rules_suffix(key) implies name_views(
                out@,
            ).contains(key) by {
                lemma_map_of_contains(self.files@, key);
                let j = choose|j: int|
                    0 <= j < self.files@.len() && #[trigger] self.files@[j].name@ == key;
                assert(name_views(sel@).contains(key));
                lemma_sort_by_key_contains(name_key(), selv, key);
            }
            assert forall|a: int, b: int| 0 <= a < b < out@.len() implies lex_lt(
                out@[a]@,
                out@[b]@,
            ) by {
                assert(sorted_by_key(name_key(), outv));
                assert(lex_le(outv[a], outv[b]));
                assert(outv[a] != outv[b]);
            }
            assert forall|a: int, b: int| 0 <= a < b < out@.len() implies out@[a]@ != out@[b]@ by {
                assert(outv[a] != outv[b]);
                assert(outv[a] == out@[a]@ && outv[b] == out@[b]@);
            }
        }
        out
    }
}

/// The views of a vector of filenames.
pub open spec fn name_views(s: Seq<String>) -> Seq<Seq<char>> {
    s.map_values(|x: String| x@)
}

/// The identity sort key on filenames.
pub open spec fn name_key() -> spec_fn(Seq<char>) -> Seq<char> {
    |n: Seq<char>| n
}

/// A rule record written to the directory and then read back under its
/// filename yields exactly the synthesized text, byte for byte.
pub proof fn lemma_write_read_round_trip(dir: Map<Seq<char>, Seq<char>>, rec: RuleRecordView)
    ensures
        dir.insert(rec.filename, rule_text_of(rec)).contains_key(rec.filename),
        dir.insert(rec.filename, rule_text_of(rec))[rec.filename] == rule_text_of(rec),
{
}

/// Writing the same text under the same filename twice leaves the
/// directory exactly as one write does: the file is overwritten in place.
pub proof fn lemma_write_twice(dir: Map<Seq<char>, Seq<char>>, name: Seq<char>, text: Seq<char>)
    ensures
        dir.insert(name, text).insert(name, text) == dir.insert(name, text),
{
    assert(dir.insert(name, text).insert(name, text) =~= dir.insert(name, text));
}

} // verus!
