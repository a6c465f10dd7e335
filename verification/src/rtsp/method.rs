//! The request methods the client can issue.

use vstd::prelude::*;

verus! {

#[derive(Debug, Clone, Copy, PartialEq, Eq, Structural)]
pub enum Method {
    Options,
    Describe,
    Setup,
    Play,
    Teardown,
}

#[derive(Debug, Clone, Copy, PartialEq, Eq, Structural)]
pub enum ParseMethodError {
    InvalidMethod,
}

/// The wire name of a method.
pub open spec fn method_name(m: Method) -> Seq<u8> {
    match m {
        Method::Options => seq![0x4fu8, 0x50, 0x54, 0x49, 0x4f, 0x4e, 0x53],
        Method::Describe => seq![0x44u8, 0x45, 0x53, 0x43, 0x52, 0x49, 0x42, 0x45],
        Method::Setup => seq![0x53u8, 0x45, 0x54, 0x55, 0x50],
        Method::Play => seq![0x50u8, 0x4c, 0x41, 0x59],
        Method::Teardown => seq![0x54u8, 0x45, 0x41, 0x52, 0x44, 0x4f, 0x57, 0x4e],
    }
}

/// The wire name of a method, as characters.
pub open spec fn method_text(m: Method) -> Seq<char> {
    match m {
        Method::Options => seq!['O', 'P', 'T', 'I', 'O', 'N', 'S'],
        Method::Describe => seq!['D', 'E', 'S', 'C', 'R', 'I', 'B', 'E'],
        Method::Setup => seq!['S', 'E', 'T', 'U', 'P'],
        Method::Play => seq!['P', 'L', 'A', 'Y'],
        Method::Teardown => seq!['T', 'E', 'A', 'R', 'D', 'O', 'W', 'N'],
    }
}

/// What parsing a method token yields: exactly the five wire names.
pub open spec fn spec_parse_method(s: Seq<u8>) -> Result<Method, ParseMethodError> {
    if s == method_name(Method::Options) {
        Ok(Method::Options)
    } else if s == method_name(Method::Describe) {
        Ok(Method::Describe)
    } else if s == method_name(Method::Setup) {
        Ok(Method::Setup)
    } else if s == method_name(Method::Play) {
        Ok(Method::Play)
    } else if s == method_name(Method::Teardown) {
        Ok(Method::Teardown)
    } else {
        Err(ParseMethodError::InvalidMethod)
    }
}

/// Whether two byte slices hold the same bytes.
pub fn bytes_eq(a: &[u8], b: &[u8]) -> (r: bool)
    ensures
        r <==> a@ == b@,
{
    if a.len() != b.len() {
        proof {
            assert(a@.len() != b@.len());
        }
        return false;
    }
    let mut i: usize = 0;
    while i < a.len()
        invariant
            0 <= i <= a@.len(),
            a@.len() == b@.len(),
            forall|k: int| 0 <= k < i ==> a@[k] == b@[k],
        decreases a@.len() - i,
    {
        if a[i] != b[i] {
            return false;
        }
        i = i + 1;
    }
    proof {
        assert(a@ =~= b@);
    }
    true
}

impl Method {
    /// The wire name of the method, as bytes.
    pub fn name_bytes(&self) -> (r: Vec<u8>)
        ensures
            r@ == method_name(*self),
    {
        match self {
            Method::Options => {
                let r = vec![0x4fu8, 0x50, 0x54, 0x49, 0x4f, 0x4e, 0x53];
                assert(r@ =~= method_name(Method::Options));
                r
            },
            Method::Describe => {
                let r = vec![0x44u8, 0x45, 0x53, 0x43, 0x52, 0x49, 0x42, 0x45];
                assert(r@ =~= method_name(Method::Describe));
                r
            },
            Method::Setup => {
                let r = vec![0x53u8, 0x45, 0x54, 0x55, 0x50];
                assert(r@ =~= method_name(Method::Setup));
                r
            },
            Method::Play => {
                let r = vec![0x50u8, 0x4c, 0x41, 0x59];
                assert(r@ =~= method_name(Method::Play));
                r
            },
            Method::Teardown => {
                let r = vec![0x54u8, 0x45, 0x41, 0x52, 0x44, 0x4f, 0x57, 0x4e];
                assert(r@ =~= method_name(Method::Teardown));
                r
            },
        }
    }

    /// The wire name of the method, as text.
    pub fn as_str(&self) -> (r: &'static str)
        ensures
            r@ == method_text(*self),
    {
        match self {
            Method::Options => {
                proof {
                    reveal_strlit("OPTIONS");
                }
                "OPTIONS"
            },
            Method::Describe => {
                proof {
                    reveal_strlit("DESCRIBE");
                }
                "DESCRIBE"
            },
            Method::Setup => {
                proof {
                    reveal_strlit("SETUP");
                }
                "SETUP"
            },
            Method::Play => {
                proof {
                    reveal_strlit("PLAY");
                }
                "PLAY"
            },
            Method::Teardown => {
                proof {
                    reveal_strlit("TEARDOWN");
                }
                "TEARDOWN"
            },
        }
    }

    /// Reads a method token.
    pub fn parse(s: &[u8]) -> (r: Result<Method, ParseMethodError>)
        ensures
            r == spec_parse_method(s@),
    {
        let names: [Method; 5] = [
            Method::Options,
            Method::Describe,
            Method::Setup,
            Method::Play,
            Method::Teardown,
        ];
        let mut i: usize = 0;
        while i < 5
            invariant
                0 <= i <= 5,
                names@ =~= seq![
                    Method::Options,
                    Method::Describe,
                    Method::Setup,
                    Method::Play,
                    Method::Teardown,
                ],
                forall|k: int| 0 <= k < i ==> s@ != method_name(#[trigger] names@[k]),
            decreases 5 - i,
        {
            let m = names[i];
            let name = m.name_bytes();
            if bytes_eq(s, name.as_slice()) {
                return Ok(m);
            }
            i = i + 1;
        }
        Err(ParseMethodError::InvalidMethod)
    }
}


/// Each wire name parses back to its own method.
pub proof fn lemma_method_names_distinct(m: Method)
    ensures
        spec_parse_method(method_name(m)) == Ok::<Method, ParseMethodError>(m),
{
    let n = method_name(m);
    match m {
        Method::Options => {},
        Method::Describe => {
            assert(n != method_name(Method::Options)) by {
                assert(n.len() != method_name(Method::Options).len());
            }
        },
        Method::Setup => {
            assert(n != method_name(Method::Options)) by {
                assert(n.len() != method_name(Method::Options).len());
            }
            assert(n != method_name(Method::Describe)) by {
                assert(n.len() != method_name(Method::Describe).len());
            }
        },
        Method::Play => {
            assert(n != method_name(Method::Options)) by {
                assert(n.len() != method_name(Method::Options).len());
            }
            assert(n != method_name(Method::Describe)) by {
                assert(n.len() != method_name(Method::Describe).len());
            }
            assert(n != method_name(Method::Setup)) by {
                assert(n.len() != method_name(Method::Setup).len());
            }
        },
        Method::Teardown => {
            assert(n != method_name(Method::Options)) by {
                assert(n.len() != method_name(Method::Options).len());
            }
            assert(n != method_name(Method::Describe)) by {
                if n == method_name(Method::Describe) {
                    assert(n[0] == method_name(Method::Describe)[0]);
                }
            }
            assert(n != method_name(Method::Setup)) by {
                assert(n.len() != method_name(Method::Setup).len());
            }
            assert(n != method_name(Method::Play)) by {
                assert(n.len() != method_name(Method::Play).len());
            }
        },
    }
}
} // verus!
