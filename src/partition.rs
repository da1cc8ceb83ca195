//! What the directories-first rule makes of a sorted listing.
use std::cmp::Ordering;
use vstd::prelude::*;

use crate::file::File;
use crate::sorter::FilesSorter;
use crate::text::flip;

verus! {

/// The number of directories in a listing.
pub open spec fn dir_count(s: Seq<File>) -> nat
    decreases s.len(),
{
    if s.len() == 0 {
        0
    } else {
        dir_count(s.drop_last()) + if s.last().is_dir {
            1nat
        } else {
            0nat
        }
    }
}

proof fn lemma_dir_count_le(s: Seq<File>)
    ensures
        dir_count(s) <= s.len(),
    decreases s.len(),
{
    if s.len() > 0 {
        lemma_dir_count_le(s.drop_last());
    }
}

proof fn lemma_dir_count_remove(s: Seq<File>, j: int)
    requires
        0 <= j < s.len(),
    ensures
        dir_count(s) == dir_count(s.remove(j)) + if s[j].is_dir {
            1nat
        } else {
            0nat
        },
    decreases s.len(),
{
    if j == s.len() - 1 {
        assert(s.remove(j) =~= s.drop_last());
    } else {
        lemma_dir_count_remove(s.drop_last(), j);
        assert(s.remove(j).drop_last() =~= s.drop_last().remove(j));
    }
}

/// Listings that hold the same entries hold the same number of directories.
pub proof fn lemma_dir_count_permutation(s1: Seq<File>, s2: Seq<File>)
    requires
        s1.to_multiset() == s2.to_multiset(),
    ensures
        dir_count(s1) == dir_count(s2),
    decreases s1.len(),
{
    broadcast use vstd::seq_lib::group_to_multiset_ensures;

    if s1.len() == 0 {
        assert(s2.to_multiset().len() == 0);
    } else {
        let x = s1.last();
        let rest = s1.drop_last();
        assert(rest.push(x) =~= s1);
        assert(s1.to_multiset().count(x) > 0);
        assert(s2.contains(x));
        let j = choose|j: int| 0 <= j < s2.len() && s2[j] == x;
        assert(s2.remove(j).to_multiset() =~= rest.to_multiset());
        lemma_dir_count_permutation(rest, s2.remove(j));
        lemma_dir_count_remove(s2, j);
    }
}

/// In a listing ordered with directories first, no directory comes after an
/// entry that is not one.
proof fn lemma_no_dir_after_file(cfg: FilesSorter, s: Seq<File>, sizes: Map<Seq<char>, u64>, i: int, j: int)
    requires
        cfg.dir_first,
        cfg.is_ordered(s, sizes),
        0 <= i < j < s.len(),
        !s[i].is_dir,
    ensures
        !s[j].is_dir,
    decreases j - i,
{
    assert(cfg.order(s[i], s[i + 1], sizes) != Ordering::Greater);
    if j > i + 1 {
        lemma_no_dir_after_file(cfg, s, sizes, i + 1, j);
    }
}

/// With directories first, a sorted listing opens with exactly its
/// directories: the entry at position `i` is a directory if and only if `i`
/// is below the number of directories, in every mode.
pub proof fn lemma_directories_lead(cfg: FilesSorter, s: Seq<File>, sizes: Map<Seq<char>, u64>)
    requires
        cfg.dir_first,
        cfg.is_ordered(s, sizes),
    ensures
        forall|i: int| 0 <= i < s.len() ==> (#[trigger] s[i].is_dir <==> i < dir_count(s)),
    decreases s.len(),
{
    if s.len() > 0 {
        let rest = s.drop_last();
        assert forall|i: int| 0 <= i < rest.len() - 1 implies #[trigger] cfg.order(
            rest[i],
            rest[i + 1],
            sizes,
        ) != Ordering::Greater by {
            assert(cfg.order(s[i], s[i + 1], sizes) != Ordering::Greater);
        }
        lemma_directories_lead(cfg, rest, sizes);
        lemma_dir_count_le(rest);
        if s.last().is_dir {
            assert forall|i: int| 0 <= i < rest.len() implies rest[i].is_dir by {
                if !rest[i].is_dir {
                    lemma_no_dir_after_file(cfg, s, sizes, i, s.len() - 1);
                }
            }
            if dir_count(rest) < rest.len() {
                assert(rest[dir_count(rest) as int].is_dir);
            }
        }
        assert forall|i: int| 0 <= i < s.len() implies (#[trigger] s[i].is_dir <==> i < dir_count(s)) by {
            if i < rest.len() {
                assert(s[i] == rest[i]);
            }
        }
    }
}

/// Turning `reverse` round moves no directory across the boundary: two
/// sorts of one listing that differ only in `reverse` put directories at the
/// same positions, and each adjacent pair of one kind in the reversed result
/// is in the opposite order of the forward key.
pub proof fn lemma_reverse_keeps_partition(
    forward: FilesSorter,
    backward: FilesSorter,
    input: Seq<File>,
    s1: Seq<File>,
    s2: Seq<File>,
    sizes: Map<Seq<char>, u64>,
)
    requires
        forward.dir_first,
        backward == (FilesSorter { reverse: !forward.reverse, ..forward }),
        s1.to_multiset() == input.to_multiset(),
        s2.to_multiset() == input.to_multiset(),
        forward.is_ordered(s1, sizes),
        backward.is_ordered(s2, sizes),
    ensures
        s1.len() == s2.len(),
        forall|i: int| 0 <= i < s1.len() ==> s1[i].is_dir == s2[i].is_dir,
        forall|i: int|
            0 <= i < s2.len() - 1 && s2[i].is_dir == s2[i + 1].is_dir ==> #[trigger] forward.key_order(
                s2[i],
                s2[i + 1],
                sizes,
            ) != Ordering::Less,
{
    broadcast use vstd::seq_lib::group_to_multiset_ensures;

    assert(s1.len() == s1.to_multiset().len());
    assert(s2.len() == s2.to_multiset().len());
    lemma_dir_count_permutation(s1, s2);
    lemma_directories_lead(forward, s1, sizes);
    lemma_directories_lead(backward, s2, sizes);
    assert forall|i: int| 0 <= i < s1.len() implies s1[i].is_dir == s2[i].is_dir by {
        assert(s1[i].is_dir <==> i < dir_count(s1));
        assert(s2[i].is_dir <==> i < dir_count(s2));
    }
    assert forall|i: int|
        0 <= i < s2.len() - 1 && s2[i].is_dir == s2[i + 1].is_dir implies #[trigger] forward.key_order(
        s2[i],
        s2[i + 1],
        sizes,
    ) != Ordering::Less by {
        assert(backward.order(s2[i], s2[i + 1], sizes) != Ordering::Greater);
        assert(backward.key_order(s2[i], s2[i + 1], sizes) == flip(
            forward.key_order(s2[i], s2[i + 1], sizes),
        ));
    }
}

} // verus!
