//! The author model: a display name and an email address, parsed from the
//! raw `"Display Name; local-part-or-full-email"` form a store holds, with a
//! bare local part resolved against a configured domain.

use vstd::prelude::*;

use crate::errors::Error;
use crate::strutil::{contains_char, find_char, first_idx, has_char, lemma_first_idx, trim,
    trim_spec};

verus! {

/// A resolved author. Immutable once constructed; equality is structural.
#[derive(Clone, Debug)]
pub struct Author {
    pub name: String,
    pub email: String,
}

/// The mathematical value of an [`Author`]: its two character sequences.
#[verifier::ext_equal]
pub struct AuthorSpec {
    pub name: Seq<char>,
    pub email: Seq<char>,
}

impl View for Author {
    type V = AuthorSpec;

    open spec fn view(&self) -> AuthorSpec {
        AuthorSpec { name: self.name@, email: self.email@ }
    }
}

impl DeepView for Author {
    type V = AuthorSpec;

    open spec fn deep_view(&self) -> AuthorSpec {
        self.view()
    }
}

impl PartialEq for Author {
    fn eq(&self, other: &Author) -> (r: bool) {
        self.name == other.name && self.email == other.email
    }
}

impl vstd::std_specs::cmp::PartialEqSpecImpl for Author {
    open spec fn obeys_eq_spec() -> bool {
        true
    }

    open spec fn eq_spec(&self, other: &Author) -> bool {
        self@ == other@
    }
}

/// Parses raw author values against an optional configured domain.
pub struct AuthorParser {
    pub domain: Option<String>,
}

/// The view of an optional domain string.
pub open spec fn domain_view(d: Option<String>) -> Option<Seq<char>> {
    match d {
        Some(s) => Some(s@),
        None => None,
    }
}

/// The segment of `raw` before the first `;` (all of `raw` without one).
pub open spec fn name_segment(raw: Seq<char>) -> Seq<char> {
    raw.take(first_idx(raw, ';'))
}

/// The segment of `raw` between the first `;` and the next one, if a first
/// `;` exists; empty otherwise.
pub open spec fn seed_segment(raw: Seq<char>) -> Seq<char> {
    if contains_char(raw, ';') {
        let rest = raw.skip(first_idx(raw, ';') + 1);
        rest.take(first_idx(rest, ';'))
    } else {
        seq![]
    }
}

/// What parsing a raw author value yields: the trimmed name segment and an
/// email, the trimmed seed taken verbatim when it holds `@` and completed
/// with `@domain` otherwise; or the first applicable error.
pub open spec fn parse_spec(raw: Seq<char>, domain: Option<Seq<char>>) -> Result<
    AuthorSpec,
    Error,
> {
    let name = trim_spec(name_segment(raw));
    let seed = trim_spec(seed_segment(raw));
    if name.len() == 0 {
        Err(Error::MissingName)
    } else if seed.len() == 0 {
        Err(Error::MissingEmailSeed)
    } else if contains_char(seed, '@') {
        Ok(AuthorSpec { name, email: seed })
    } else {
        match domain {
            Some(d) => Ok(AuthorSpec { name, email: seed + seq!['@'] + d }),
            None => Err(Error::MissingDomain),
        }
    }
}

impl AuthorParser {
    /// Splits `raw` on `;`, trims the first two segments into name and email
    /// seed, and resolves a bare seed against the configured domain.
    pub fn parse(&self, raw: &str) -> (r: Result<Author, Error>)
        ensures
            match (r, parse_spec(raw@, domain_view(self.domain))) {
                (Ok(a), Ok(v)) => a@ == v,
                (Err(e), Err(ve)) => e == ve,
                _ => false,
            },
    {
        let n = raw.unicode_len();
        proof {
            lemma_first_idx(raw@, ';');
        }
        let (name_part, seed_part): (&str, &str) = match find_char(raw, ';') {
            Some(i) => {
                let rest = raw.substring_char(i + 1, n);
                let m = rest.unicode_len();
                proof {
                    lemma_first_idx(rest@, ';');
                }
                let seed_end = match find_char(rest, ';') {
                    Some(j) => j,
                    None => m,
                };
                proof {
                    assert(raw@.subrange(0, i as int) =~= name_segment(raw@));
                    assert(rest@ =~= raw@.skip(i + 1));
                    assert(rest@.subrange(0, seed_end as int) =~= seed_segment(raw@));
                }
                (raw.substring_char(0, i), rest.substring_char(0, seed_end))
            },
            None => {
                proof {
                    assert(raw@.subrange(0, n as int) =~= name_segment(raw@));
                    assert(""@ =~= seed_segment(raw@)) by {
                        reveal_strlit("");
                    }
                }
                (raw.substring_char(0, n), "")
            },
        };
        let name = trim(name_part);
        if name.unicode_len() == 0 {
            proof {
                assert(trim_spec(name_segment(raw@)).len() == 0);
            }
            return Err(Error::MissingName);
        }
        let seed = trim(seed_part);
        if seed.unicode_len() == 0 {
            return Err(Error::MissingEmailSeed);
        }
        let email: String = if has_char(seed, '@') {
            seed.to_owned()
        } else {
            match &self.domain {
                Some(d) => {
                    let e = seed.to_owned().concat("@").concat(d.as_str());
                    proof {
                        reveal_strlit("@");
                        assert("@"@ =~= seq!['@']);
                    }
                    e
                },
                None => {
                    return Err(Error::MissingDomain);
                },
            }
        };
        let a = Author { name: name.to_owned(), email };
        proof {
            assert(a@ =~= parse_spec(raw@, domain_view(self.domain)).unwrap());
        }
        Ok(a)
    }
}

} // verus!
