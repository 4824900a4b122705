//! Classification of clipboard payloads by their mimetype.

use vstd::prelude::*;
use vstd::string::StrSliceExecFns;

verus! {

/// Where the payload of an entry lives.
#[derive(Clone, Copy, Debug, PartialEq, Eq, Structural)]
pub enum Class {
    /// The payload is kept in the history itself.
    Inline,
    /// The payload is kept in a blob file and the history holds its path.
    Binary,
}

/// The prefix that marks a binary-class mimetype.
pub open spec fn image_prefix() -> Seq<char> {
    seq!['i', 'm', 'a', 'g', 'e']
}

/// A mimetype is binary-class exactly when it starts with `image`.
pub open spec fn is_binary(mimetype: Seq<char>) -> bool {
    image_prefix().is_prefix_of(mimetype)
}

/// The class of a mimetype as a mathematical function.
pub open spec fn class_of(mimetype: Seq<char>) -> Class {
    if is_binary(mimetype) {
        Class::Binary
    } else {
        Class::Inline
    }
}

/// Classifies a mimetype. A mimetype shorter than the prefix is inline.
pub fn classify(mimetype: &str) -> (class: Class)
    ensures
        class == class_of(mimetype@),
{
    let n: usize = mimetype.unicode_len();
    if n < 5 {
        return Class::Inline;
    }
    let hit = mimetype.get_char(0) == 'i' && mimetype.get_char(1) == 'm' && mimetype.get_char(2)
        == 'a' && mimetype.get_char(3) == 'g' && mimetype.get_char(4) == 'e';
    proof {
        let p = image_prefix();
        if hit {
            assert(mimetype@.subrange(0, 5) =~= p);
        } else {
            if is_binary(mimetype@) {
                assert(mimetype@.subrange(0, 5) == p);
                assert(forall|i: int| 0 <= i < 5 ==> mimetype@[i] == mimetype@.subrange(0, 5)[i]);
            }
        }
    }
    if hit {
        Class::Binary
    } else {
        Class::Inline
    }
}

} // verus!
