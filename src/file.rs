//! Entries of a listing and the table of aggregate directory sizes.
use vstd::prelude::*;

verus! {

/// One file-system object of a listing, with its metadata already read.
/// Timestamps are nanoseconds since the Unix epoch, `None` where the
/// platform could not give them.
#[derive(Clone, Debug, PartialEq, Eq)]
pub struct File {
    pub url: String,
    pub created: Option<i128>,
    pub modified: Option<i128>,
    pub length: u64,
    pub is_dir: bool,
    pub is_link: bool,
    pub link_to: Option<String>,
    pub is_hidden: bool,
}

/// Aggregate sizes of directories, looked up by identifier.
pub struct SizeTable {
    entries: Vec<(String, u64)>,
}

/// The map that a list of records describes: a later record for an
/// identifier replaces an earlier one.
pub open spec fn records_map(s: Seq<(String, u64)>) -> Map<Seq<char>, u64>
    decreases s.len(),
{
    if s.len() == 0 {
        Map::empty()
    } else {
        records_map(s.drop_last()).insert(s.last().0@, s.last().1)
    }
}

impl View for SizeTable {
    type V = Map<Seq<char>, u64>;

    closed spec fn view(&self) -> Map<Seq<char>, u64> {
        records_map(self.entries@)
    }
}

impl SizeTable {
    pub fn new() -> (r: SizeTable)
        ensures
            r@ == Map::<Seq<char>, u64>::empty(),
    {
        SizeTable { entries: Vec::new() }
    }

    /// Records the aggregate size of `url`, replacing any earlier one.
    pub fn insert(&mut self, url: String, size: u64)
        ensures
            final(self)@ == old(self)@.insert(url@, size),
    {
        self.entries.push((url, size));
        assert(self.entries@.drop_last() =~= old(self).entries@);
    }

    /// The aggregate size recorded for `url`, if any.
    pub fn get(&self, url: &String) -> (r: Option<u64>)
        ensures
            r == (if self@.contains_key(url@) {
                Some(self@[url@])
            } else {
                None
            }),
    {
        let ghost s = self.entries@;
        let mut j: usize = self.entries.len();
        assert(s.take(j as int) =~= s);
        while j > 0
            invariant
                j <= s.len(),
                s == self.entries@,
                records_map(s).contains_key(url@) == records_map(s.take(j as int)).contains_key(url@),
                records_map(s).contains_key(url@) ==> records_map(s)[url@] == records_map(
                    s.take(j as int),
                )[url@],
            decreases j,
        {
            assert(s.take(j as int).drop_last() =~= s.take(j - 1));
            if self.entries[j - 1].0 == *url {
                return Some(self.entries[j - 1].1);
            }
            j = j - 1;
        }
        None
    }
}

} // verus!
