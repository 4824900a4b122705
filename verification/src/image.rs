//! The blob store: numbered files, one for each binary-class entry.

use crate::decimal::{
    decimal_bytes, is_numeral, numeral_value, parse_numeral, push_decimal, NumeralError,
};
use crate::error::HistoryError;
use vstd::prelude::*;
use vstd::slice::slice_to_vec;

verus! {

/// The names of a directory listing as mathematical values.
pub open spec fn names_of(listing: Seq<Vec<u8>>) -> Seq<Seq<u8>> {
    listing.map_values(|name: Vec<u8>| name@)
}

/// Every name of the listing is a numeral.
pub open spec fn all_numerals(names: Seq<Seq<u8>>) -> bool {
    forall|i: int| 0 <= i < names.len() ==> is_numeral(#[trigger] names[i])
}

/// The largest number that a name of the listing denotes; zero for an empty listing.
pub open spec fn highest(names: Seq<Seq<u8>>) -> nat
    decreases names.len(),
{
    if names.len() == 0 {
        0
    } else {
        let rest = highest(names.drop_last());
        let last = numeral_value(names.last());
        if last > rest {
            last
        } else {
            rest
        }
    }
}

/// The number of the next blob: one more than the largest in use, and so 1
/// for an empty directory.
pub open spec fn next_number(names: Seq<Seq<u8>>) -> nat {
    highest(names) + 1
}

/// Why no next number can be given for a listing, if that is so.
pub open spec fn number_error(names: Seq<Seq<u8>>) -> Option<HistoryError> {
    if !all_numerals(names) {
        Some(HistoryError::CorruptBlobName)
    } else if next_number(names) > usize::MAX {
        Some(HistoryError::BlobNumbersExhausted)
    } else {
        None
    }
}

/// The path of the file called `name` in the directory `dir`.
pub open spec fn blob_path(dir: Seq<u8>, name: Seq<u8>) -> Seq<u8> {
    dir + seq![47u8] + name
}

/// The path of blob number `n` in the directory `dir`.
pub open spec fn numbered_path(dir: Seq<u8>, n: nat) -> Seq<u8> {
    blob_path(dir, decimal_bytes(n))
}

/// No name of the listing denotes more than `highest` says.
pub proof fn lemma_highest_bounds(names: Seq<Seq<u8>>, i: int)
    requires
        0 <= i < names.len(),
    ensures
        numeral_value(names[i]) <= highest(names),
    decreases names.len(),
{
    if i < names.len() - 1 {
        lemma_highest_bounds(names.drop_last(), i);
    }
}

/// Paths in one directory differ when the names differ.
pub proof fn lemma_blob_path_injective(dir: Seq<u8>, a: Seq<u8>, b: Seq<u8>)
    requires
        blob_path(dir, a) == blob_path(dir, b),
    ensures
        a == b,
{
    let pa = blob_path(dir, a);
    let pb = blob_path(dir, b);
    let k = dir.len() + 1;
    assert(pa.len() == k + a.len());
    assert(pb.len() == k + b.len());
    assert forall|i: int| 0 <= i < a.len() implies a[i] == b[i] by {
        assert(pa[k + i] == a[i]);
        assert(pb[k + i] == b[i]);
    }
    assert(a =~= b);
}

/// The next blob's path is fresh: no listed file has it.
pub proof fn lemma_next_path_fresh(dir: Seq<u8>, names: Seq<Seq<u8>>, i: int)
    requires
        0 <= i < names.len(),
    ensures
        blob_path(dir, names[i]) != numbered_path(dir, next_number(names)),
{
    let n = next_number(names);
    if blob_path(dir, names[i]) == numbered_path(dir, n) {
        lemma_blob_path_injective(dir, names[i], decimal_bytes(n));
        crate::decimal::lemma_decimal_bytes_value(n);
        lemma_highest_bounds(names, i);
    }
}

/// The blob store.
pub struct Image;

impl Image {
    /// The number for the next blob, given the names of the files now in the
    /// blob directory.
    pub fn get_num(listing: &Vec<Vec<u8>>) -> (r: Result<usize, HistoryError>)
        ensures
            match r {
                Ok(n) => number_error(names_of(listing@)) is None && n == next_number(
                    names_of(listing@),
                ),
                Err(e) => number_error(names_of(listing@)) == Some(e),
            },
    {
        let ghost names = names_of(listing@);
        let mut max: usize = 0;
        let mut too_large = false;
        let mut i: usize = 0;
        assert(names.subrange(0, 0) =~= Seq::<Seq<u8>>::empty());
        while i < listing.len()
            invariant
                i <= listing.len(),
                names == names_of(listing@),
                forall|j: int| 0 <= j < i ==> is_numeral(#[trigger] names[j]),
                !too_large ==> max == highest(names.subrange(0, i as int)),
                too_large ==> highest(names.subrange(0, i as int)) > usize::MAX,
            decreases listing.len() - i,
        {
            let parsed = parse_numeral(listing[i].as_slice());
            proof {
                assert(names[i as int] == listing@[i as int]@);
                assert(names.subrange(0, i + 1).drop_last() =~= names.subrange(0, i as int));
                assert(names.subrange(0, i + 1).last() == names[i as int]);
            }
            match parsed {
                Ok(v) => {
                    if v > max {
                        max = v;
                    }
                },
                Err(NumeralError::TooLarge) => {
                    too_large = true;
                },
                Err(NumeralError::Malformed) => {
                    return Err(HistoryError::CorruptBlobName);
                },
            }
            i = i + 1;
        }
        proof {
            assert(names.subrange(0, i as int) =~= names);
        }
        if too_large || max == usize::MAX {
            Err(HistoryError::BlobNumbersExhausted)
        } else {
            Ok(max + 1)
        }
    }

    /// The path of blob number `num` in the directory `dir`.
    pub fn path(dir: &[u8], num: usize) -> (path: Vec<u8>)
        ensures
            path@ == numbered_path(dir@, num as nat),
    {
        let mut path = Image::prefix(dir);
        push_decimal(&mut path, num);
        path
    }

    /// The path of the file called `name` in the directory `dir`.
    pub fn path_of(dir: &[u8], name: &[u8]) -> (path: Vec<u8>)
        ensures
            path@ == blob_path(dir@, name@),
    {
        let mut path = Image::prefix(dir);
        let mut tail = slice_to_vec(name);
        path.append(&mut tail);
        path
    }

    /// The directory and the separator that every path in it starts with.
    fn prefix(dir: &[u8]) -> (path: Vec<u8>)
        ensures
            path@ == dir@ + seq![47u8],
    {
        let mut path = slice_to_vec(dir);
        path.push(47u8);
        proof {
            assert(path@ =~= dir@ + seq![47u8]);
        }
        path
    }
}

} // verus!
