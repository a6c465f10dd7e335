//! The target of a request: the full URI text as it goes on the request
//! line, and its path part, which authentication signs.

use vstd::prelude::*;
use crate::bytes::{find_index, lemma_find_index};
use crate::bytes;

verus! {

pub struct Uri {
    full: Vec<u8>,
    path: Vec<u8>,
}

/// The path of a URI of the form `scheme://authority/path`: everything from
/// the first slash after the authority. A URI without `://` after its first
/// colon, or without a slash after the authority, has the empty path.
pub open spec fn spec_uri_path(s: Seq<u8>) -> Seq<u8> {
    match find_index(s, 0x3a, 0) {
        Option::None => Seq::empty(),
        Option::Some(c) => {
            if c + 3 <= s.len() && s[c + 1] == 0x2f && s[c + 2] == 0x2f {
                match find_index(s, 0x2f, c + 3) {
                    Option::None => Seq::empty(),
                    Option::Some(p) => s.subrange(p, s.len() as int),
                }
            } else {
                Seq::empty()
            }
        },
    }
}

impl Uri {
    /// A URI from its parts, taken as given.
    pub fn new(full: Vec<u8>, path: Vec<u8>) -> (r: Self)
        ensures
            r.spec_full() == full@,
            r.spec_path() == path@,
    {
        Uri { full, path }
    }

    /// A URI from its text, the path extracted from it.
    pub fn parse(full: Vec<u8>) -> (r: Self)
        ensures
            r.spec_full() == full@,
            r.spec_path() == spec_uri_path(full@),
    {
        proof {
            lemma_find_index(full@, 0x3a, 0);
        }
        let path: Vec<u8> = match bytes::find_byte(full.as_slice(), 0, full.len(), 0x3a) {
            Option::None => {
                proof {
                    match find_index(full@, 0x3a, 0) {
                        Option::None => {},
                        Option::Some(i) => {
                            assert(full@[i] == 0x3a);
                        },
                    }
                }
                Vec::new()
            },
            Option::Some(c) => {
                proof {
                    match find_index(full@, 0x3a, 0) {
                        Option::None => {
                            assert(false);
                        },
                        Option::Some(i) => {
                            assert(i == c);
                        },
                    }
                }
                if full.len() >= 3 && c <= full.len() - 3 && full[c + 1] == 0x2f && full[c + 2]
                    == 0x2f {
                    proof {
                        lemma_find_index(full@, 0x2f, c + 3);
                    }
                    match bytes::find_byte(full.as_slice(), c + 3, full.len(), 0x2f) {
                        Option::None => {
                            proof {
                                match find_index(full@, 0x2f, c + 3) {
                                    Option::None => {},
                                    Option::Some(i) => {
                                        assert(full@[i] == 0x2f);
                                    },
                                }
                            }
                            Vec::new()
                        },
                        Option::Some(p) => {
                            proof {
                                match find_index(full@, 0x2f, c + 3) {
                                    Option::None => {
                                        assert(false);
                                    },
                                    Option::Some(i) => {
                                        assert(i == p);
                                    },
                                }
                            }
                            bytes::copy_range(full.as_slice(), p, full.len())
                        },
                    }
                } else {
                    Vec::new()
                }
            },
        };
        proof {
            if path@.len() == 0 {
                assert(path@ =~= Seq::<u8>::empty());
            }
            if spec_uri_path(full@).len() == 0 {
                assert(spec_uri_path(full@) =~= Seq::<u8>::empty());
            }
        }
        Uri { full, path }
    }

    /// The full URI text.
    pub fn full(&self) -> (r: &[u8])
        ensures
            r@ == self.spec_full(),
    {
        self.full.as_slice()
    }

    /// The path part.
    pub fn path(&self) -> (r: &[u8])
        ensures
            r@ == self.spec_path(),
    {
        self.path.as_slice()
    }

    /// The full URI text, as a spec value.
    pub closed spec fn spec_full(&self) -> Seq<u8> {
        self.full@
    }

    /// The path part, as a spec value.
    pub closed spec fn spec_path(&self) -> Seq<u8> {
        self.path@
    }

    /// An owned copy.
    pub fn duplicate(&self) -> (r: Self)
        ensures
            r.spec_full() == self.spec_full(),
            r.spec_path() == self.spec_path(),
    {
        let r = Uri {
            full: bytes::copy_range(self.full.as_slice(), 0, self.full.len()),
            path: bytes::copy_range(self.path.as_slice(), 0, self.path.len()),
        };
        proof {
            assert(r.full@ =~= self.full@);
            assert(r.path@ =~= self.path@);
        }
        r
    }
}

} // verus!
