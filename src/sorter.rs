//! The sort engine: one configuration, five modes, a directories-first rule.
use std::cmp::Ordering;
use vstd::multiset::Multiset;
use vstd::prelude::*;

use crate::file::{File, SizeTable};
use crate::natural::{comparable, comparable_chars, natord_compare, natural_order};
use crate::text::{flip, flipped, lemma_lex_order_flip, lex_compare, lex_order};

verus! {

/// The key that a listing is ordered by.
#[derive(Clone, Copy, Debug, PartialEq, Eq)]
pub enum SortBy {
    Alphabetical,
    Created,
    Modified,
    Natural,
    Size,
}

/// A sort configuration: the mode, whether case matters, whether the mode's
/// key runs backwards, and whether directories come before other entries.
#[derive(Clone, Copy, Debug, PartialEq, Eq)]
pub struct FilesSorter {
    pub by: SortBy,
    pub sensitive: bool,
    pub reverse: bool,
    pub dir_first: bool,
}

/// Numeric order of two integers.
pub open spec fn int_order(a: int, b: int) -> Ordering {
    if a < b {
        Ordering::Less
    } else if a == b {
        Ordering::Equal
    } else {
        Ordering::Greater
    }
}

/// The size an entry is ordered by: a directory's aggregate size where the
/// table has one, else the entry's own length.
pub open spec fn size_key(f: File, sizes: Map<Seq<char>, u64>) -> u64 {
    if f.is_dir && sizes.contains_key(f.url@) {
        sizes[f.url@]
    } else {
        f.length
    }
}

/// The key of a mode, kept once per entry so that each is computed once.
struct SortKey {
    is_dir: bool,
    text: Vec<char>,
    stamp: Option<i128>,
    size: u64,
}

impl FilesSorter {
    /// Directories first: a directory precedes an entry that is not one.
    /// Without the option, or between entries of one kind, it is a tie.
    pub open spec fn promote_spec(self, a_is_dir: bool, b_is_dir: bool) -> Ordering {
        if self.dir_first && a_is_dir && !b_is_dir {
            Ordering::Less
        } else if self.dir_first && !a_is_dir && b_is_dir {
            Ordering::Greater
        } else {
            Ordering::Equal
        }
    }

    /// The order of a mode's key, turned round when `reverse` is set.
    pub open spec fn directed(self, o: Ordering) -> Ordering {
        if self.reverse {
            flip(o)
        } else {
            o
        }
    }

    /// Timestamps order numerically; a pair in which either is missing ties.
    pub open spec fn stamp_order(self, a: Option<i128>, b: Option<i128>) -> Ordering {
        match (a, b) {
            (Some(x), Some(y)) => self.directed(int_order(x as int, y as int)),
            _ => Ordering::Equal,
        }
    }

    /// The order of the configured mode's key alone.
    pub open spec fn key_order(self, a: File, b: File, sizes: Map<Seq<char>, u64>) -> Ordering {
        match self.by {
            SortBy::Alphabetical => self.directed(
                lex_order(comparable(a.url@, self.sensitive), comparable(b.url@, self.sensitive)),
            ),
            SortBy::Created => self.stamp_order(a.created, b.created),
            SortBy::Modified => self.stamp_order(a.modified, b.modified),
            SortBy::Natural => self.directed(
                natural_order(
                    comparable(a.url@, self.sensitive),
                    comparable(b.url@, self.sensitive),
                ),
            ),
            SortBy::Size => self.directed(
                int_order(size_key(a, sizes) as int, size_key(b, sizes) as int),
            ),
        }
    }

    /// The order of two entries: directories first, then the mode's key.
    pub open spec fn order(self, a: File, b: File, sizes: Map<Seq<char>, u64>) -> Ordering {
        let p = self.promote_spec(a.is_dir, b.is_dir);
        if p != Ordering::Equal {
            p
        } else {
            self.key_order(a, b, sizes)
        }
    }

    /// No entry is followed by one that orders before it.
    pub open spec fn is_ordered(self, s: Seq<File>, sizes: Map<Seq<char>, u64>) -> bool {
        forall|i: int|
            0 <= i < s.len() - 1 ==> #[trigger] self.order(s[i], s[i + 1], sizes)
                != Ordering::Greater
    }

    spec fn key_matches(self, k: SortKey, f: File, sizes: Map<Seq<char>, u64>) -> bool {
        &&& k.is_dir == f.is_dir
        &&& (self.by == SortBy::Alphabetical || self.by == SortBy::Natural) ==> k.text@
            == comparable(f.url@, self.sensitive)
        &&& self.by == SortBy::Created ==> k.stamp == f.created
        &&& self.by == SortBy::Modified ==> k.stamp == f.modified
        &&& self.by == SortBy::Size ==> k.size == size_key(f, sizes)
    }
}

/// Numeric order of two integers.
fn compare_ints(a: i128, b: i128) -> (r: Ordering)
    ensures
        r == int_order(a as int, b as int),
{
    if a < b {
        Ordering::Less
    } else if a == b {
        Ordering::Equal
    } else {
        Ordering::Greater
    }
}

impl FilesSorter {
    /// The directories-first decision for two entries.
    pub fn promote(&self, a_is_dir: bool, b_is_dir: bool) -> (r: Ordering)
        ensures
            r == self.promote_spec(a_is_dir, b_is_dir),
    {
        if self.dir_first && a_is_dir && !b_is_dir {
            Ordering::Less
        } else if self.dir_first && !a_is_dir && b_is_dir {
            Ordering::Greater
        } else {
            Ordering::Equal
        }
    }

    /// Combines the directories-first decision with the order of the mode's
    /// key: the decision wins unless it is a tie; the key's order is turned
    /// round when `reverse` is set.
    pub fn cmp(&self, key: Ordering, promote: Ordering) -> (r: Ordering)
        ensures
            r == (if promote != Ordering::Equal {
                promote
            } else {
                self.directed(key)
            }),
    {
        match promote {
            Ordering::Equal => if self.reverse {
                flipped(key)
            } else {
                key
            },
            _ => promote,
        }
    }

    fn key_of(&self, f: &File, sizes: &SizeTable) -> (k: SortKey)
        ensures
            self.key_matches(k, *f, sizes@),
    {
        let mut k = SortKey { is_dir: f.is_dir, text: Vec::new(), stamp: None, size: 0 };
        match self.by {
            SortBy::Alphabetical | SortBy::Natural => {
                k.text = comparable_chars(f.url.as_str(), self.sensitive);
            },
            SortBy::Created => {
                k.stamp = f.created;
            },
            SortBy::Modified => {
                k.stamp = f.modified;
            },
            SortBy::Size => {
                k.size = f.length;
                if f.is_dir {
                    match sizes.get(&f.url) {
                        Some(v) => {
                            k.size = v;
                        },
                        None => {},
                    }
                }
            },
        }
        k
    }

    /// The order of two entries through their keys; swapping them reverses it.
    fn compare_keys(
        &self,
        a: &SortKey,
        b: &SortKey,
        Ghost(fa): Ghost<File>,
        Ghost(fb): Ghost<File>,
        Ghost(sizes): Ghost<Map<Seq<char>, u64>>,
    ) -> (r: Ordering)
        requires
            self.key_matches(*a, fa, sizes),
            self.key_matches(*b, fb, sizes),
        ensures
            r == self.order(fa, fb, sizes),
            flip(r) == self.order(fb, fa, sizes),
    {
        let promote = self.promote(a.is_dir, b.is_dir);
        let key = match self.by {
            SortBy::Alphabetical => {
                proof {
                    lemma_lex_order_flip(a.text@, b.text@);
                }
                lex_compare(&a.text, &b.text)
            },
            SortBy::Natural => natord_compare(&a.text, &b.text),
            SortBy::Created | SortBy::Modified => {
                match (a.stamp, b.stamp) {
                    (Some(x), Some(y)) => compare_ints(x, y),
                    _ => Ordering::Equal,
                }
            },
            SortBy::Size => compare_ints(a.size as i128, b.size as i128),
        };
        self.cmp(key, promote)
    }
}

impl FilesSorter {
    /// Sorts `items` in place: directories first when so configured, then by
    /// the mode's key. Returns `false`, leaving `items` as it was, when there
    /// is nothing to sort, and `true` otherwise. The result holds the same
    /// entries, and no entry is followed by one that orders before it. Entries
    /// that tie keep no particular order among themselves.
    pub fn sort(&self, items: &mut Vec<File>, sizes: &SizeTable) -> (r: bool)
        ensures
            r == (old(items)@.len() > 0),
            !r ==> final(items)@ == old(items)@,
            final(items)@.to_multiset() == old(items)@.to_multiset(),
            self.is_ordered(final(items)@, sizes@),
    {
        if items.len() == 0 {
            return false;
        }
        let ghost start = items@;
        let mut files: Vec<File> = Vec::new();
        let mut keys: Vec<SortKey> = Vec::new();
        proof {
            broadcast use vstd::seq_lib::group_to_multiset_ensures;

            assert(files@.to_multiset() =~= Multiset::empty());
        }
        while items.len() > 0
            invariant
                files.len() == keys.len(),
                forall|i: int| 0 <= i < keys.len() ==> self.key_matches(keys[i], files[i], sizes@),
                self.is_ordered(files@, sizes@),
                items@.to_multiset().add(files@.to_multiset()) == start.to_multiset(),
            decreases items.len(),
        {
            let ghost before = items@;
            let f = items.pop().unwrap();
            proof {
                assert(items@.push(f) =~= before);
                items@.to_multiset_ensures();
            }
            let k = self.key_of(&f, sizes);
            let ghost fv = f;
            let mut j: usize = files.len();
            loop
                invariant
                    j <= files.len(),
                    files.len() == keys.len(),
                    forall|i: int|
                        0 <= i < keys.len() ==> self.key_matches(keys[i], files[i], sizes@),
                    self.key_matches(k, fv, sizes@),
                    j < files.len() ==> self.order(fv, files[j as int], sizes@) == Ordering::Less,
                ensures
                    j <= files.len(),
                    j < files.len() ==> self.order(fv, files[j as int], sizes@) == Ordering::Less,
                    j > 0 ==> self.order(files[j - 1], fv, sizes@) != Ordering::Greater,
                decreases j,
            {
                if j == 0 {
                    break;
                }
                let o = self.compare_keys(&k, &keys[j - 1], Ghost(fv), Ghost(files[j - 1]), Ghost(sizes@));
                match o {
                    Ordering::Less => {},
                    _ => {
                        break;
                    },
                }
                j = j - 1;
            }
            let ghost old_files = files@;
            keys.insert(j, k);
            files.insert(j, f);
            proof {
                let n = files@.len();
                assert(forall|i: int| 0 <= i < j ==> files@[i] == old_files[i]);
                assert(forall|i: int| j < i < n ==> files@[i] == old_files[i - 1]);
                assert(files@[j as int] == fv);
                assert forall|i: int| 0 <= i < n - 1 implies #[trigger] self.order(
                    files@[i],
                    files@[i + 1],
                    sizes@,
                ) != Ordering::Greater by {
                    if i < j - 1 {
                        assert(self.order(old_files[i], old_files[i + 1], sizes@) != Ordering::Greater);
                    } else if i > j {
                        let m = i - 1;
                        assert(self.order(old_files[m], old_files[m + 1], sizes@) != Ordering::Greater);
                        assert(m + 1 == i);
                    }
                }
                assert(files@.remove(j as int) =~= old_files);
                files@.to_multiset_ensures();
                assert(files@.to_multiset() =~= old_files.to_multiset().insert(fv));
            }
        }
        proof {
            broadcast use vstd::seq_lib::group_to_multiset_ensures;

            assert(items@.to_multiset() =~= Multiset::empty());
            assert(files@.to_multiset() =~= start.to_multiset());
        }
        *items = files;
        true
    }
}

} // verus!
