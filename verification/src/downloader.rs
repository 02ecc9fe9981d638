//! What a downloader decides without touching the disk or the network: the name of the
//! file that an address is saved under, and the count of completed downloads.

use vstd::prelude::*;
use vstd::string::*;

verus! {

/// Counts completed downloads.
#[derive(Debug)]
pub struct SharedCounter {
    count: u32,
}

impl View for SharedCounter {
    type V = nat;

    closed spec fn view(&self) -> nat {
        self.count as nat
    }
}

impl SharedCounter {
    /// A counter at zero.
    pub fn new() -> (counter: SharedCounter)
        ensures
            counter@ == 0,
    {
        SharedCounter { count: 0 }
    }

    /// Counts one more download. A counter at `u32::MAX` is full and takes no more.
    pub fn increment(&mut self)
        requires
            old(self)@ < u32::MAX,
        ensures
            final(self)@ == old(self)@ + 1,
    {
        self.count += 1;
    }

    /// The number of downloads counted.
    pub fn value(&self) -> (count: u32)
        ensures
            count == self@,
    {
        self.count
    }
}

/// The place of the last `/` in `url`, and -1 where there is none.
pub open spec fn last_slash(url: Seq<char>) -> int
    decreases url.len(),
{
    if url.len() == 0 {
        -1
    } else if url.last() == '/' {
        url.len() - 1
    } else {
        last_slash(url.drop_last())
    }
}

/// What follows the last `/` of `url`: the whole of `url` where it has none, and the
/// empty text where it ends in one.
pub open spec fn file_name_of(url: Seq<char>) -> Seq<char> {
    url.subrange(last_slash(url) + 1, url.len() as int)
}

/// The name of the file that the content of `url` is saved under.
pub fn file_name(url: &str) -> (name: String)
    ensures
        name@ == file_name_of(url@),
{
    let len = url.unicode_len();
    let mut start: usize = 0;
    let mut i: usize = 0;
    assert(url@.take(0) =~= Seq::<char>::empty());
    while i < len
        invariant
            len == url@.len(),
            i <= len,
            start == last_slash(url@.take(i as int)) + 1,
            start <= i,
        decreases len - i,
    {
        proof {
            assert(url@.take(i + 1).drop_last() =~= url@.take(i as int));
            assert(url@.take(i + 1).last() == url@[i as int]);
        }
        if url.get_char(i) == '/' {
            start = i + 1;
        }
        i += 1;
    }
    assert(url@.take(len as int) =~= url@);
    String::from_str(url.substring_char(start, len))
}

} // verus!
