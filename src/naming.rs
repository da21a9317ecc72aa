//! Names of the volume files.
//!
//! Volume 1 is the base path itself; volume `k > 1` is the base path with
//! the suffix `.k`, `k` written in decimal without padding. Paths are byte
//! strings.
use vstd::prelude::*;

verus! {

/// The decimal digits of `n`, most significant first, as ASCII bytes.
pub open spec fn decimal(n: nat) -> Seq<u8>
    decreases n,
{
    if n < 10 {
        seq![(48 + n) as u8]
    } else {
        decimal(n / 10).push((48 + n % 10) as u8)
    }
}

/// The path of volume `index` of the file whose first volume is `base`.
pub open spec fn volume_name(base: Seq<u8>, index: nat) -> Seq<u8> {
    if index == 1 {
        base
    } else {
        base.push(46u8) + decimal(index)
    }
}

/// The decimal representation of `n` as ASCII bytes.
pub fn decimal_bytes(n: usize) -> (r: Vec<u8>)
    ensures
        r@ == decimal(n as nat),
    decreases n,
{
    if n < 10 {
        vec![48u8 + n as u8]
    } else {
        let mut v = decimal_bytes(n / 10);
        v.push(48u8 + (n % 10) as u8);
        v
    }
}

/// The volume names of one file, walked by index.
#[derive(Debug)]
pub struct Filenames {
    path: Vec<u8>,
    index: usize,
}

impl Filenames {
    /// The base path the names are derived from.
    pub closed spec fn base(&self) -> Seq<u8> {
        self.path@
    }

    /// The index of the name that `next` hands out.
    pub closed spec fn next_index(&self) -> nat {
        self.index as nat + 1
    }

    /// Names starting at volume `start_index` (1-based).
    pub fn new(path: Vec<u8>, start_index: usize) -> (r: Filenames)
        requires
            start_index >= 1,
        ensures
            r.base() == path@,
            r.next_index() == start_index,
    {
        Filenames { path, index: start_index - 1 }
    }

    /// The path of volume `index` of the file whose first volume is `path`.
    pub fn by_index(path: Vec<u8>, index: usize) -> (r: Vec<u8>)
        ensures
            r@ == volume_name(path@, index as nat),
    {
        if index == 1 {
            path
        } else {
            let mut os = path;
            os.push(46u8);
            let mut digits = decimal_bytes(index);
            os.append(&mut digits);
            os
        }
    }

    /// The next name in the sequence, or `None` once the index would no
    /// longer fit in a `usize`.
    pub fn next(&mut self) -> (r: Option<Vec<u8>>)
        ensures
            final(self).base() == old(self).base(),
            match r {
                Some(p) => {
                    &&& old(self).next_index() <= usize::MAX
                    &&& p@ == volume_name(old(self).base(), old(self).next_index())
                    &&& final(self).next_index() == old(self).next_index() + 1
                },
                None => {
                    &&& old(self).next_index() > usize::MAX
                    &&& final(self).next_index() == old(self).next_index()
                },
            },
    {
        if self.index == usize::MAX {
            None
        } else {
            self.index = self.index + 1;
            Some(Filenames::by_index(self.path.clone(), self.index))
        }
    }
}

} // verus!
