//! A wrapper core for attributing commits to several simultaneously active
//! authors. It resolves author identities from a key-value configuration
//! store, owns the rotation and persistence of the active initials list,
//! classifies forwarded argument vectors, and plans commit-message
//! augmentation — everything around process execution, file reading and the
//! store's own backing, which callers keep to themselves.

use vstd::prelude::*;

pub mod author;
pub mod config;
pub mod errors;
pub mod invocation;
pub mod laws;
pub mod message;
pub mod strutil;

pub use author::{Author, AuthorParser};
pub use config::{Config, Store};
pub use errors::Error;
pub use invocation::{ConfigScope, Invocation, TriggerAction};
pub use message::{AugmentPlan, CommitMessageInputMethod};

use author::{domain_view, parse_spec, AuthorSpec};
use strutil::str_eq;

verus! {

/// The key the `+`-joined active initials are persisted under.
pub open spec fn active_key() -> Seq<char> {
    "git-together.active"@
}

/// The key the comma-separated extra signoff-eligible subcommands live
/// under.
pub open spec fn aliases_key() -> Seq<char> {
    "git-together.aliases"@
}

/// The key of the toggle between the signoff flag and co-author trailers.
pub open spec fn coauthored_key() -> Seq<char> {
    "git-together.co-authored"@
}

/// The key of the domain bare local parts are resolved against.
pub open spec fn domain_key() -> Seq<char> {
    "git-together.domain"@
}

/// The prefix under which raw author values are configured, one per
/// initials.
pub open spec fn authors_prefix() -> Seq<char> {
    "git-together.authors."@
}

/// The key holding the raw author value for `initials`.
pub open spec fn author_key(initials: Seq<char>) -> Seq<char> {
    authors_prefix() + initials
}

/// The generic current-identity name key.
pub open spec fn user_name_key() -> Seq<char> {
    "user.name"@
}

/// The generic current-identity email key.
pub open spec fn user_email_key() -> Seq<char> {
    "user.email"@
}

/// The shadow copy of the pre-existing identity name.
pub open spec fn ns_user_name_key() -> Seq<char> {
    "git-together.user.name"@
}

/// The shadow copy of the pre-existing identity email.
pub open spec fn ns_user_email_key() -> Seq<char> {
    "git-together.user.email"@
}

/// How the namespaced keys decompose into the shared prefix and a plain
/// name.
proof fn lemma_key_literals()
    ensures
        "git-together."@ + "active"@ == active_key(),
        "git-together."@ + "domain"@ == domain_key(),
        "git-together."@ + "aliases"@ == aliases_key(),
        "git-together."@ + "co-authored"@ == coauthored_key(),
        "git-together."@ + "authors."@ == authors_prefix(),
        "git-together."@ + "user.name"@ == ns_user_name_key(),
        "git-together."@ + "user.email"@ == ns_user_email_key(),
{
    reveal_strlit("git-together.");
    reveal_strlit("active");
    reveal_strlit("domain");
    reveal_strlit("git-together.domain");
    reveal_strlit("aliases");
    reveal_strlit("co-authored");
    reveal_strlit("authors.");
    reveal_strlit("user.name");
    reveal_strlit("user.email");
    reveal_strlit("git-together.active");
    reveal_strlit("git-together.aliases");
    reveal_strlit("git-together.co-authored");
    reveal_strlit("git-together.authors.");
    reveal_strlit("git-together.user.name");
    reveal_strlit("git-together.user.email");
    assert("git-together."@ + "active"@ =~= active_key());
    assert("git-together."@ + "domain"@ =~= domain_key());
    assert("git-together."@ + "aliases"@ =~= aliases_key());
    assert("git-together."@ + "co-authored"@ =~= coauthored_key());
    assert("git-together."@ + "authors."@ =~= authors_prefix());
    assert("git-together."@ + "user.name"@ =~= ns_user_name_key());
    assert("git-together."@ + "user.email"@ =~= ns_user_email_key());
}

/// Prefixes a configuration name with the wrapper's own namespace.
pub fn namespaced(name: &str) -> (r: String)
    ensures
        r@ == "git-together."@ + name@,
{
    String::from_str("git-together.").concat(name)
}

/// What resolving one initials value against a store yields.
pub enum Resolution {
    /// The raw value under the initials parses to this author.
    Found(AuthorSpec),
    /// No raw value is configured under the initials.
    NotFound,
    /// A raw value exists but does not parse; the payload is the parse
    /// error.
    Invalid(Error),
}

/// Resolves one initials value: looks the raw author value up under its key
/// and parses it against the domain.
pub open spec fn resolve_spec(
    m: Map<Seq<char>, Seq<char>>,
    d: Option<Seq<char>>,
    init: Seq<char>,
) -> Resolution {
    if !m.contains_key(author_key(init)) {
        Resolution::NotFound
    } else {
        match parse_spec(m[author_key(init)], d) {
            Ok(a) => Resolution::Found(a),
            Err(e) => Resolution::Invalid(e),
        }
    }
}

/// Every initials value in the list resolves to an author.
pub open spec fn all_resolved(
    m: Map<Seq<char>, Seq<char>>,
    d: Option<Seq<char>>,
    inits: Seq<Seq<char>>,
) -> bool {
    forall|k: int| 0 <= k < inits.len() ==> (#[trigger] resolve_spec(m, d, inits[k])) is Found
}

/// The authors the initials resolve to, in input order. Meaningful where
/// [`all_resolved`] holds.
pub open spec fn resolved_authors(
    m: Map<Seq<char>, Seq<char>>,
    d: Option<Seq<char>>,
    inits: Seq<Seq<char>>,
) -> Seq<AuthorSpec> {
    Seq::new(
        inits.len(),
        |k: int|
            match resolve_spec(m, d, inits[k]) {
                Resolution::Found(a) => a,
                _ => AuthorSpec { name: Seq::empty(), email: Seq::empty() },
            },
    )
}

/// Whether `r` reports resolving `init` faithfully: the author on success,
/// `AuthorNotFound` for a missing key, `InvalidAuthor` with the raw value
/// for one that does not parse.
pub open spec fn resolves_to(
    m: Map<Seq<char>, Seq<char>>,
    d: Option<Seq<char>>,
    init: Seq<char>,
    r: Result<Author, Error>,
) -> bool {
    match resolve_spec(m, d, init) {
        Resolution::Found(v) => r matches Ok(a) && a@ == v,
        Resolution::NotFound => r matches Err(e) && (e matches Error::AuthorNotFound(i) && i@
            == init),
        Resolution::Invalid(_) => r matches Err(e) && (e matches Error::InvalidAuthor(i, raw) && i@
            == init && raw@ == m[author_key(init)]),
    }
}

/// `e` is the error for the first initials value in the list that does not
/// resolve.
pub open spec fn err_matches_first_failure(
    e: Error,
    m: Map<Seq<char>, Seq<char>>,
    d: Option<Seq<char>>,
    inits: Seq<Seq<char>>,
) -> bool {
    exists|k: int|
        0 <= k < inits.len() && (forall|j: int|
            0 <= j < k ==> (#[trigger] resolve_spec(m, d, inits[j])) is Found) && !(resolve_spec(
            m,
            d,
            #[trigger] inits[k],
        ) is Found) && resolves_to(m, d, inits[k], Err(e))
}

/// Whether `r` reports resolving the whole list faithfully: all authors in
/// input order, or the first resolution error with nothing else done.
pub open spec fn resolves_all_to(
    m: Map<Seq<char>, Seq<char>>,
    d: Option<Seq<char>>,
    inits: Seq<Seq<char>>,
    r: Result<Vec<Author>, Error>,
) -> bool {
    match r {
        Ok(authors) => all_resolved(m, d, inits) && authors.deep_view() == resolved_authors(
            m,
            d,
            inits,
        ),
        Err(e) => !all_resolved(m, d, inits) && err_matches_first_failure(e, m, d, inits),
    }
}

/// The active list with its first entry moved to the end.
pub open spec fn rotate_spec(s: Seq<Seq<char>>) -> Seq<Seq<char>> {
    if s.len() == 0 {
        s
    } else {
        s.drop_first().push(s[0])
    }
}

/// The state-machine core: a configuration store and the parser for raw
/// author values.
pub struct GitTogether<C: Config> {
    pub config: C,
    pub author_parser: AuthorParser,
}

impl<C: Config> GitTogether<C> {
    /// The domain the parser resolves bare local parts against.
    pub open spec fn domain(&self) -> Option<Seq<char>> {
        domain_view(self.author_parser.domain)
    }

    /// Wraps a store, reading the configured domain for the parser.
    pub fn new(config: C) -> (r: GitTogether<C>)
        ensures
            r.config == config,
            r.domain() == if config.contents().contains_key(domain_key()) {
                Some(config.contents()[domain_key()])
            } else {
                None::<Seq<char>>
            },
    {
        proof {
            lemma_key_literals();
        }
        let key = namespaced("domain");
        let domain = match config.get(key.as_str()) {
            Ok(d) => Some(d),
            Err(_) => None,
        };
        GitTogether { config, author_parser: AuthorParser { domain } }
    }

    /// Resolves one initials value to an author.
    pub fn get_author(&self, initials: &str) -> (r: Result<Author, Error>)
        ensures
            resolves_to(self.config.contents(), self.domain(), initials@, r),
    {
        let mut suffix = String::from_str("authors.");
        suffix.append(initials);
        let key = namespaced(suffix.as_str());
        proof {
            lemma_key_literals();
            assert(key@ =~= author_key(initials@));
        }
        match self.config.get(key.as_str()) {
            Err(_) => Err(Error::AuthorNotFound(initials.to_owned())),
            Ok(raw) => match self.author_parser.parse(raw.as_str()) {
                Ok(a) => Ok(a),
                Err(_) => Err(Error::InvalidAuthor(initials.to_owned(), raw)),
            },
        }
    }

    /// Resolves every initials value, atomically: the first failure is
    /// surfaced and nothing is returned for the rest.
    pub fn get_authors(&self, inits: &Vec<String>) -> (r: Result<Vec<Author>, Error>)
        ensures
            resolves_all_to(self.config.contents(), self.domain(), inits.deep_view(), r),
    {
        let ghost m = self.config.contents();
        let ghost d = self.domain();
        let ghost dv = inits.deep_view();
        let mut authors: Vec<Author> = Vec::new();
        let mut k: usize = 0;
        while k < inits.len()
            invariant
                inits.deep_view() == dv,
                self.config.contents() == m,
                self.domain() == d,
                0 <= k <= dv.len(),
                authors@.len() == k,
                forall|j: int|
                    0 <= j < k ==> ((#[trigger] resolve_spec(m, d, dv[j])) matches
                        Resolution::Found(a) && authors.deep_view()[j] == a),
            decreases dv.len() - k,
        {
            match self.get_author(inits[k].as_str()) {
                Ok(a) => {
                    let ghost old_a = authors.deep_view();
                    authors.push(a);
                    proof {
                        assert(authors.deep_view() =~= old_a.push(a@));
                    }
                },
                Err(e) => {
                    proof {
                        assert(!(resolve_spec(m, d, dv[k as int]) is Found));
                        assert(resolves_to(m, d, dv[k as int], Err(e)));
                        assert(err_matches_first_failure(e, m, d, dv));
                    }
                    return Err(e);
                },
            }
            k += 1;
        }
        proof {
            assert(authors.deep_view() =~= resolved_authors(m, d, dv));
        }
        Ok(authors)
    }
}

/// The store after the active initials list is persisted.
pub open spec fn with_active_view(
    m: Map<Seq<char>, Seq<char>>,
    inits: Seq<Seq<char>>,
) -> Map<Seq<char>, Seq<char>> {
    m.insert(active_key(), strutil::join_spec(inits, "+"@))
}

/// The store after the pre-existing identity name is shadowed, if it exists
/// and no shadow does yet.
pub open spec fn save_name_view(m: Map<Seq<char>, Seq<char>>) -> Map<Seq<char>, Seq<char>> {
    if m.contains_key(user_name_key()) && !m.contains_key(ns_user_name_key()) {
        m.insert(ns_user_name_key(), m[user_name_key()])
    } else {
        m
    }
}

/// The store after the pre-existing identity email is shadowed, likewise.
pub open spec fn save_email_view(m: Map<Seq<char>, Seq<char>>) -> Map<Seq<char>, Seq<char>> {
    if m.contains_key(user_email_key()) && !m.contains_key(ns_user_email_key()) {
        m.insert(ns_user_email_key(), m[user_email_key()])
    } else {
        m
    }
}

/// The store after both halves of the pre-existing identity are shadowed,
/// each at most once.
pub open spec fn saved_user_view(m: Map<Seq<char>, Seq<char>>) -> Map<Seq<char>, Seq<char>> {
    save_email_view(save_name_view(m))
}

/// The store after the generic identity is set to one author.
pub open spec fn set_user_view(
    m: Map<Seq<char>, Seq<char>>,
    a: AuthorSpec,
) -> Map<Seq<char>, Seq<char>> {
    m.insert(user_name_key(), a.name).insert(user_email_key(), a.email)
}

/// The store a successful activation leaves behind: the active list
/// persisted, the original identity shadowed once, and the generic identity
/// set to the first resolved author.
pub open spec fn set_active_view(
    m: Map<Seq<char>, Seq<char>>,
    d: Option<Seq<char>>,
    inits: Seq<Seq<char>>,
) -> Map<Seq<char>, Seq<char>> {
    let m2 = saved_user_view(with_active_view(m, inits));
    if inits.len() > 0 {
        set_user_view(m2, resolved_authors(m, d, inits)[0])
    } else {
        m2
    }
}

/// The stores a backend failure part way through an activation can leave
/// behind: each prefix of the activation's store writes.
pub open spec fn set_active_partial(
    m: Map<Seq<char>, Seq<char>>,
    d: Option<Seq<char>>,
    inits: Seq<Seq<char>>,
    new_m: Map<Seq<char>, Seq<char>>,
) -> bool {
    ||| new_m == m
    ||| new_m == with_active_view(m, inits)
    ||| new_m == save_name_view(with_active_view(m, inits))
    ||| new_m == saved_user_view(with_active_view(m, inits))
    ||| (inits.len() > 0 && new_m == saved_user_view(with_active_view(m, inits)).insert(
        user_name_key(),
        resolved_authors(m, d, inits)[0].name,
    ))
}

/// Whether `r` and the store after the call report an activation of `inits`
/// faithfully: on success the resolved authors and the composed store; on a
/// resolution error the untouched store; on a backend error one of the
/// activation's write prefixes.
pub open spec fn set_active_outcome(
    m: Map<Seq<char>, Seq<char>>,
    d: Option<Seq<char>>,
    inits: Seq<Seq<char>>,
    r: Result<Vec<Author>, Error>,
    new_m: Map<Seq<char>, Seq<char>>,
) -> bool {
    match r {
        Ok(authors) => {
            &&& all_resolved(m, d, inits)
            &&& authors.deep_view() == resolved_authors(m, d, inits)
            &&& new_m == set_active_view(m, d, inits)
        },
        Err(e) => {
            ||| (!all_resolved(m, d, inits) && err_matches_first_failure(e, m, d, inits) && new_m
                == m)
            ||| (all_resolved(m, d, inits) && set_active_partial(m, d, inits, new_m))
        },
    }
}

impl<C: Config> GitTogether<C> {
    /// Shadows the pre-existing generic identity, name and email each at
    /// most once: an existing shadow is never overwritten.
    fn save_original_user(&mut self) -> (r: Result<(), Error>)
        ensures
            final (self).author_parser == old(self).author_parser,
            r matches Ok(_) ==> final (self).config.contents() == saved_user_view(
                old(self).config.contents(),
            ),
            r matches Err(_) ==> final (self).config.contents() == old(self).config.contents()
                || final (self).config.contents() == save_name_view(old(self).config.contents()),
            old(self).config.infallible() ==> final (self).config.infallible() && r matches Ok(_),
    {
        proof {
            lemma_key_literals();
        }
        match self.config.get("user.name") {
            Ok(name) => {
                let key = namespaced("user.name");
                match self.config.get(key.as_str()) {
                    Ok(_) => {},
                    Err(_) => {
                        match self.config.set(key.as_str(), name.as_str()) {
                            Ok(_) => {},
                            Err(e) => {
                                return Err(e);
                            },
                        }
                    },
                }
            },
            Err(_) => {},
        }
        proof {
            assert(self.config.contents() =~= save_name_view(old(self).config.contents()));
        }
        match self.config.get("user.email") {
            Ok(email) => {
                let key = namespaced("user.email");
                match self.config.get(key.as_str()) {
                    Ok(_) => {},
                    Err(_) => {
                        match self.config.set(key.as_str(), email.as_str()) {
                            Ok(_) => {},
                            Err(e) => {
                                return Err(e);
                            },
                        }
                    },
                }
            },
            Err(_) => {},
        }
        proof {
            assert(self.config.contents() =~= saved_user_view(old(self).config.contents()));
        }
        Ok(())
    }

    /// Sets the generic current identity to one author.
    fn set_user(&mut self, name: &str, email: &str) -> (r: Result<(), Error>)
        ensures
            final (self).author_parser == old(self).author_parser,
            r matches Ok(_) ==> final (self).config.contents() == old(
                self,
            ).config.contents().insert(user_name_key(), name@).insert(user_email_key(), email@),
            r matches Err(_) ==> final (self).config.contents() == old(self).config.contents()
                || final (self).config.contents() == old(self).config.contents().insert(
                user_name_key(),
                name@,
            ),
            old(self).config.infallible() ==> final (self).config.infallible() && r matches Ok(_),
    {
        proof {
            lemma_key_literals();
        }
        match self.config.set("user.name", name) {
            Ok(_) => {},
            Err(e) => {
                return Err(e);
            },
        }
        match self.config.set("user.email", email) {
            Ok(_) => {},
            Err(e) => {
                return Err(e);
            },
        }
        Ok(())
    }

    /// Resolves every initials value, persists the joined active list,
    /// shadows the pre-existing identity once, and sets the generic
    /// identity to the first author. A resolution failure persists nothing,
    /// and with a store that promises not to fail it is the only failure.
    pub fn set_active(&mut self, inits: &Vec<String>) -> (r: Result<Vec<Author>, Error>)
        ensures
            final (self).author_parser == old(self).author_parser,
            set_active_outcome(
                old(self).config.contents(),
                old(self).domain(),
                inits.deep_view(),
                r,
                final (self).config.contents(),
            ),
            old(self).config.infallible() ==> final (self).config.infallible(),
            old(self).config.infallible() && all_resolved(
                old(self).config.contents(),
                old(self).domain(),
                inits.deep_view(),
            ) ==> r matches Ok(_),
    {
        let ghost m = self.config.contents();
        let ghost d = self.domain();
        let ghost dv = inits.deep_view();
        proof {
            lemma_key_literals();
        }
        let authors = match self.get_authors(inits) {
            Ok(a) => a,
            Err(e) => {
                return Err(e);
            },
        };
        let joined = strutil::join(inits, "+");
        let key = namespaced("active");
        match self.config.set(key.as_str(), joined.as_str()) {
            Ok(_) => {},
            Err(e) => {
                return Err(e);
            },
        }
        proof {
            assert(self.config.contents() == with_active_view(m, dv));
        }
        match self.save_original_user() {
            Ok(_) => {},
            Err(e) => {
                return Err(e);
            },
        }
        proof {
            assert(self.config.contents() == saved_user_view(with_active_view(m, dv)));
            assert(authors.deep_view().len() == dv.len());
            assert(authors@.len() == authors.deep_view().len());
        }
        if authors.len() > 0 {
            let name = authors[0].name.clone();
            let email = authors[0].email.clone();
            proof {
                assert(authors.deep_view()[0] == resolved_authors(m, d, dv)[0]);
                assert(name@ == resolved_authors(m, d, dv)[0].name);
                assert(email@ == resolved_authors(m, d, dv)[0].email);
            }
            match self.set_user(name.as_str(), email.as_str()) {
                Ok(_) => {
                    proof {
                        assert(self.config.contents() == set_user_view(
                            saved_user_view(with_active_view(m, dv)),
                            resolved_authors(m, d, dv)[0],
                        ));
                        assert(self.config.contents() == set_active_view(m, d, dv));
                    }
                },
                Err(e) => {
                    proof {
                        assert(dv.len() > 0);
                        assert(set_active_partial(m, d, dv, self.config.contents()));
                    }
                    return Err(e);
                },
            }
        } else {
            proof {
                assert(dv.len() == 0);
                assert(self.config.contents() == set_active_view(m, d, dv));
            }
        }
        Ok(authors)
    }

    /// The stores a successful clearing can leave behind: the active key
    /// removed, and each generic identity key removed where its best-effort
    /// clear went through.
    pub open spec fn clear_active_result(
        m: Map<Seq<char>, Seq<char>>,
        new_m: Map<Seq<char>, Seq<char>>,
    ) -> bool {
        let base = m.remove(active_key());
        ||| new_m == base
        ||| new_m == base.remove(user_name_key())
        ||| new_m == base.remove(user_email_key())
        ||| new_m == base.remove(user_name_key()).remove(user_email_key())
    }

    /// Removes the active list; clearing the generic identity keys is
    /// best-effort and cannot fail the operation. A store that promises not
    /// to fail removes all three keys.
    pub fn clear_active(&mut self) -> (r: Result<(), Error>)
        ensures
            final (self).author_parser == old(self).author_parser,
            r matches Ok(_) ==> Self::clear_active_result(
                old(self).config.contents(),
                final (self).config.contents(),
            ),
            r matches Err(_) ==> final (self).config.contents() == old(self).config.contents(),
            old(self).config.infallible() ==> final (self).config.infallible() && (r matches Ok(_))
                && final (self).config.contents() == old(self).config.contents().remove(
                active_key(),
            ).remove(user_name_key()).remove(user_email_key()),
    {
        proof {
            lemma_key_literals();
        }
        let key = namespaced("active");
        match self.config.clear(key.as_str()) {
            Ok(_) => {},
            Err(e) => {
                return Err(e);
            },
        }
        let _ = self.config.clear("user.name");
        let _ = self.config.clear("user.email");
        Ok(())
    }

    /// Reads the active initials list: the persisted value split on `+`.
    pub fn get_active(&self) -> (r: Result<Vec<String>, Error>)
        ensures
            match r {
                Ok(v) => self.config.contents().contains_key(active_key()) && v.deep_view()
                    == strutil::split_spec(self.config.contents()[active_key()], '+') && v@.len()
                    >= 1,
                Err(e) => !self.config.contents().contains_key(active_key()) && (e matches
                    Error::KeyNotFound(k) && k@ == active_key()),
            },
    {
        proof {
            lemma_key_literals();
        }
        let key = namespaced("active");
        match self.config.get(key.as_str()) {
            Ok(active) => Ok(strutil::split(active.as_str(), '+')),
            Err(e) => Err(e),
        }
    }

    /// Rotates the active list and re-activates it, re-resolving every
    /// author. An unset or empty active list is left alone, without error,
    /// and with a store that promises not to fail only resolution can fail.
    pub fn rotate_active(&mut self) -> (r: Result<(), Error>)
        ensures
            final (self).author_parser == old(self).author_parser,
            old(self).config.infallible() ==> final (self).config.infallible(),
            ({
                let m = old(self).config.contents();
                let d = old(self).domain();
                old(self).config.infallible() && (!m.contains_key(active_key())
                    || m[active_key()].len() == 0 || all_resolved(
                    m,
                    d,
                    rotate_spec(strutil::split_spec(m[active_key()], '+')),
                )) ==> r matches Ok(_)
            }),
            ({
                let m = old(self).config.contents();
                let d = old(self).domain();
                if !m.contains_key(active_key()) || m[active_key()].len() == 0 {
                    r matches Ok(_) && final (self).config.contents() == m
                } else {
                    let inits = rotate_spec(strutil::split_spec(m[active_key()], '+'));
                    match r {
                        Ok(_) => all_resolved(m, d, inits) && final (self).config.contents()
                            == set_active_view(m, d, inits),
                        Err(e) => {
                            ||| (!all_resolved(m, d, inits) && err_matches_first_failure(
                                e,
                                m,
                                d,
                                inits,
                            ) && final (self).config.contents() == m)
                            ||| (all_resolved(m, d, inits) && set_active_partial(
                                m,
                                d,
                                inits,
                                final (self).config.contents(),
                            ))
                        },
                    }
                }
            }),
    {
        let mut inits = match self.get_active() {
            Ok(v) => v,
            Err(_) => {
                return Ok(());
            },
        };
        if inits.len() == 1 && inits[0].as_str().unicode_len() == 0 {
            proof {
                strutil::lemma_split_singleton_empty(
                    old(self).config.contents()[active_key()],
                    '+',
                );
            }
            return Ok(());
        }
        let ghost before = inits.deep_view();
        if inits.len() > 0 {
            let first = inits.remove(0);
            inits.push(first);
            proof {
                assert(inits.deep_view() =~= rotate_spec(before));
            }
        }
        match self.set_active(&inits) {
            Ok(_) => Ok(()),
            Err(e) => Err(e),
        }
    }
}

/// Whether some configured raw author value under the authors prefix fails
/// to parse.
pub open spec fn has_malformed_author(m: Map<Seq<char>, Seq<char>>, d: Option<Seq<char>>) -> bool {
    exists|k: Seq<char>|
        m.contains_key(k) && #[trigger] strutil::starts_with_spec(k, authors_prefix()) && !(
        parse_spec(m[k], d) is Ok)
}

/// `init` and `a` come from a configured entry: a key under the authors
/// prefix whose suffix after the last dot is `init` and whose value parses
/// to `a`.
pub open spec fn author_entry_of(
    m: Map<Seq<char>, Seq<char>>,
    d: Option<Seq<char>>,
    init: Seq<char>,
    a: AuthorSpec,
) -> bool {
    exists|k: Seq<char>|
        m.contains_key(k) && #[trigger] strutil::starts_with_spec(k, authors_prefix())
            && strutil::after_last_spec(k, '.') == init && parse_spec(m[k], d) == Ok::<
            AuthorSpec,
            Error,
        >(a)
}

/// Every pair in `out` comes from a configured author entry.
pub open spec fn all_authors_sound(
    m: Map<Seq<char>, Seq<char>>,
    d: Option<Seq<char>>,
    out: Seq<(String, Author)>,
) -> bool {
    forall|i: int|
        0 <= i < out.len() ==> author_entry_of(m, d, (#[trigger] out[i]).0@, out[i].1@)
}

/// Every configured author entry is represented in `out` by its initials.
pub open spec fn all_authors_complete(
    m: Map<Seq<char>, Seq<char>>,
    d: Option<Seq<char>>,
    out: Seq<(String, Author)>,
) -> bool {
    forall|k: Seq<char>|
        m.contains_key(k) && #[trigger] strutil::starts_with_spec(k, authors_prefix())
            ==> exists|i: int|
            0 <= i < out.len() && (#[trigger] out[i]).0@ == strutil::after_last_spec(k, '.')
}

/// `e` is either the backend's own opaque failure, or it names a
/// configured author entry that does not parse, carrying that entry's
/// initials and raw value.
pub open spec fn all_authors_err(
    m: Map<Seq<char>, Seq<char>>,
    d: Option<Seq<char>>,
    e: Error,
) -> bool {
    ||| e matches Error::Backend(_)
    ||| (e matches Error::InvalidAuthor(init, raw) && exists|k: Seq<char>|
        m.contains_key(k) && #[trigger] strutil::starts_with_spec(k, authors_prefix())
            && strutil::after_last_spec(k, '.') == init@ && m[k] == raw@ && !(parse_spec(
            m[k],
            d,
        ) is Ok))
}

/// Every entry's raw value parses against the domain.
pub open spec fn all_entries_parse(
    d: Option<Seq<char>>,
    entries: Seq<(String, String)>,
) -> bool {
    forall|k: int| 0 <= k < entries.len() ==> (parse_spec((#[trigger] entries[k]).1@, d) is Ok)
}

/// `out` pairs each entry, in order, with the suffix of its key after the
/// last dot and the author its value parses to.
pub open spec fn entries_parsed_to(
    d: Option<Seq<char>>,
    entries: Seq<(String, String)>,
    out: Seq<(String, Author)>,
) -> bool {
    &&& out.len() == entries.len()
    &&& forall|k: int|
        0 <= k < entries.len() ==> (#[trigger] out[k]).0@ == strutil::after_last_spec(
            entries[k].0@,
            '.',
        ) && parse_spec(entries[k].1@, d) == Ok::<AuthorSpec, Error>(out[k].1@)
}

/// `e` is the `InvalidAuthor` error for the first entry whose value does
/// not parse.
pub open spec fn first_bad_entry_err(
    e: Error,
    d: Option<Seq<char>>,
    entries: Seq<(String, String)>,
) -> bool {
    exists|k: int|
        0 <= k < entries.len() && (forall|j: int|
            0 <= j < k ==> (parse_spec((#[trigger] entries[j]).1@, d) is Ok)) && !(parse_spec(
            (#[trigger] entries[k]).1@,
            d,
        ) is Ok) && (e matches Error::InvalidAuthor(init, raw) && init@
            == strutil::after_last_spec(entries[k].0@, '.') && raw@ == entries[k].1@)
}

/// Parses a fetched list of raw author entries: on success each entry, in
/// order, becomes its initials (the key suffix after the last dot) and the
/// author its value parses to; otherwise the first entry that does not
/// parse decides the error, `InvalidAuthor` with that entry's initials and
/// raw value.
pub fn parse_author_entries(parser: &AuthorParser, entries: &Vec<(String, String)>) -> (r: Result<
    Vec<(String, Author)>,
    Error,
>)
    ensures
        ({
            let d = domain_view(parser.domain);
            match r {
                Ok(out) => all_entries_parse(d, entries@) && entries_parsed_to(d, entries@, out@),
                Err(e) => !all_entries_parse(d, entries@) && first_bad_entry_err(e, d, entries@),
            }
        }),
{
    let ghost d = domain_view(parser.domain);
    let ghost edv = entries@;
    let mut out: Vec<(String, Author)> = Vec::new();
    let mut i: usize = 0;
    while i < entries.len()
        invariant
            entries@ == edv,
            domain_view(parser.domain) == d,
            0 <= i <= edv.len(),
            out@.len() == i,
            forall|j: int|
                0 <= j < i ==> (parse_spec((#[trigger] edv[j]).1@, d) matches Ok(a) && out@[j].1@
                    == a && out@[j].0@ == strutil::after_last_spec(edv[j].0@, '.')),
        decreases edv.len() - i,
    {
        let key_ref: &String = &entries[i].0;
        let val_ref: &String = &entries[i].1;
        let initials = strutil::after_last(key_ref.as_str(), '.');
        match parser.parse(val_ref.as_str()) {
            Ok(a) => {
                out.push((initials, a));
            },
            Err(_) => {
                let e = Error::InvalidAuthor(initials, val_ref.clone());
                proof {
                    assert(!(parse_spec(edv[i as int].1@, d) is Ok));
                    assert(first_bad_entry_err(e, d, edv));
                }
                return Err(e);
            },
        }
        i += 1;
    }
    Ok(out)
}

/// Whether `cmd` appears as a non-empty segment of the comma-separated
/// alias list.
pub open spec fn csv_contains(csv: Seq<char>, item: Seq<char>) -> bool {
    exists|i: int|
        0 <= i < strutil::split_spec(csv, ',').len() && (#[trigger] strutil::split_spec(
            csv,
            ',',
        )[i]) == item && item.len() > 0
}

/// Whether the configured alias list names `cmd`.
pub open spec fn is_alias_spec(m: Map<Seq<char>, Seq<char>>, cmd: Seq<char>) -> bool {
    m.contains_key(aliases_key()) && csv_contains(m[aliases_key()], cmd)
}

/// Whether identity injection applies to `cmd`: one of the fixed
/// signoff-eligible subcommands, or a configured alias.
pub open spec fn is_signoff_spec(m: Map<Seq<char>, Seq<char>>, cmd: Seq<char>) -> bool {
    cmd == "commit"@ || cmd == "merge"@ || cmd == "revert"@ || is_alias_spec(m, cmd)
}

/// The identity overlay a signoff-eligible invocation runs under: the first
/// active author authors, the last commits, and the signoff flag is added
/// exactly when they differ and nothing suppresses it.
#[derive(Debug)]
pub struct Signoff {
    pub author: Author,
    pub committer: Author,
    pub add_signoff: bool,
}

/// Whether `r` reports the signoff resolution faithfully: no or empty
/// active set fails with `NoActiveAuthors`; otherwise the first and last
/// resolved authors fill the author and committer slots.
pub open spec fn signoff_outcome(
    m: Map<Seq<char>, Seq<char>>,
    d: Option<Seq<char>>,
    no_signoff: bool,
    r: Result<Signoff, Error>,
) -> bool {
    if !m.contains_key(active_key()) || m[active_key()].len() == 0 {
        r matches Err(e) && e == Error::NoActiveAuthors
    } else {
        let inits = strutil::split_spec(m[active_key()], '+');
        if all_resolved(m, d, inits) {
            let authors = resolved_authors(m, d, inits);
            r matches Ok(s) && (s.author@ == authors[0] && s.committer@ == authors[
                authors.len() - 1
            ] && s.add_signoff == (!no_signoff && authors[0] != authors[authors.len() - 1]))
        } else {
            r matches Err(e) && err_matches_first_failure(e, m, d, inits)
        }
    }
}

/// Whether `r` reports the augmentation decision faithfully: the active
/// list must exist and resolve, and the plan then follows the detected
/// message input method.
pub open spec fn authored_by_outcome(
    m: Map<Seq<char>, Seq<char>>,
    d: Option<Seq<char>>,
    args: Seq<Seq<char>>,
    no_signoff: bool,
    r: Result<AugmentPlan, Error>,
) -> bool {
    if !m.contains_key(active_key()) {
        r matches Err(e) && (e matches Error::KeyNotFound(k) && k@ == active_key())
    } else {
        let inits = strutil::split_spec(m[active_key()], '+');
        if all_resolved(m, d, inits) {
            r matches Ok(plan) && message::plan_matches(
                plan,
                resolved_authors(m, d, inits),
                args,
                no_signoff,
            )
        } else {
            r matches Err(e) && err_matches_first_failure(e, m, d, inits)
        }
    }
}

impl<C: Config> GitTogether<C> {
    /// Enumerates every configured author: the suffix after the last dot of
    /// each key under the authors prefix, with the author its value parses
    /// to. A single malformed entry fails the whole enumeration, and a
    /// store that promises not to fail can only fail it that way.
    pub fn all_authors(&self) -> (r: Result<Vec<(String, Author)>, Error>)
        ensures
            ({
                let m = self.config.contents();
                let d = self.domain();
                &&& match r {
                    Ok(v) => !has_malformed_author(m, d) && all_authors_sound(m, d, v@)
                        && all_authors_complete(m, d, v@),
                    Err(e) => all_authors_err(m, d, e),
                }
                &&& self.config.infallible() && !has_malformed_author(m, d) ==> r is Ok
            }),
    {
        let ghost m = self.config.contents();
        let ghost d = self.domain();
        proof {
            lemma_key_literals();
        }
        let prefix = namespaced("authors.");
        let raw = match self.config.get_all(prefix.as_str()) {
            Ok(v) => v,
            Err(_) => {
                return Err(Error::Backend(prefix));
            },
        };
        let ghost rdv = raw@;
        match parse_author_entries(&self.author_parser, &raw) {
            Ok(out) => {
                proof {
                    assert forall|j: int| 0 <= j < out@.len() implies author_entry_of(
                        m,
                        d,
                        (#[trigger] out@[j]).0@,
                        out@[j].1@,
                    ) by {
                        assert(m.contains_key(rdv[j].0@) && strutil::starts_with_spec(
                            rdv[j].0@,
                            authors_prefix(),
                        ) && strutil::after_last_spec(rdv[j].0@, '.') == out@[j].0@ && parse_spec(
                            m[rdv[j].0@],
                            d,
                        ) == Ok::<AuthorSpec, Error>(out@[j].1@));
                    }
                    assert forall|k: Seq<char>|
                        m.contains_key(k) && #[trigger] strutil::starts_with_spec(
                            k,
                            authors_prefix(),
                        ) implies exists|j: int|
                        0 <= j < out@.len() && (#[trigger] out@[j]).0@
                            == strutil::after_last_spec(k, '.') by {
                        let j = choose|j: int| 0 <= j < rdv.len() && (#[trigger] rdv[j]).0@ == k;
                        assert(out@[j].0@ == strutil::after_last_spec(k, '.'));
                    }
                    assert forall|k: Seq<char>|
                        m.contains_key(k) && #[trigger] strutil::starts_with_spec(
                            k,
                            authors_prefix(),
                        ) implies parse_spec(m[k], d) is Ok by {
                        let j = choose|j: int| 0 <= j < rdv.len() && (#[trigger] rdv[j]).0@ == k;
                        assert(parse_spec(rdv[j].1@, d) is Ok);
                    }
                }
                Ok(out)
            },
            Err(e) => {
                proof {
                    let k = choose|k: int|
                        0 <= k < rdv.len() && (forall|j: int|
                            0 <= j < k ==> (parse_spec((#[trigger] rdv[j]).1@, d) is Ok)) && !(
                        parse_spec((#[trigger] rdv[k]).1@, d) is Ok) && (e matches
                        Error::InvalidAuthor(init, raw2) && init@ == strutil::after_last_spec(
                            rdv[k].0@,
                            '.',
                        ) && raw2@ == rdv[k].1@);
                    assert(m.contains_key(rdv[k].0@) && strutil::starts_with_spec(
                        rdv[k].0@,
                        authors_prefix(),
                    ) && m[rdv[k].0@] == rdv[k].1@ && !(parse_spec(m[rdv[k].0@], d) is Ok));
                    assert(has_malformed_author(m, d));
                }
                Err(e)
            },
        }
    }

    /// Whether `cmd` stands in the comma-separated alias list.
    fn is_signoff_alias(&self, cmd: &str) -> (r: bool)
        ensures
            r == is_alias_spec(self.config.contents(), cmd@),
    {
        let ghost m = self.config.contents();
        proof {
            lemma_key_literals();
        }
        let key = namespaced("aliases");
        match self.config.get(key.as_str()) {
            Err(_) => false,
            Ok(csv) => {
                let parts = strutil::split(csv.as_str(), ',');
                let ghost pdv = parts.deep_view();
                let mut i: usize = 0;
                while i < parts.len()
                    invariant
                        parts.deep_view() == pdv,
                        0 <= i <= pdv.len(),
                        self.config.contents() == m,
                        m.contains_key(aliases_key()),
                        pdv == strutil::split_spec(m[aliases_key()], ','),
                        forall|j: int| 0 <= j < i ==> !((#[trigger] pdv[j]) == cmd@ && cmd@.len() > 0),
                    decreases pdv.len() - i,
                {
                    let seg = parts[i].as_str();
                    if seg.unicode_len() > 0 && str_eq(seg, cmd) {
                        proof {
                            assert(pdv[i as int] == cmd@ && cmd@.len() > 0);
                            assert(csv_contains(m[aliases_key()], cmd@));
                        }
                        return true;
                    }
                    i += 1;
                }
                proof {
                    if csv_contains(m[aliases_key()], cmd@) {
                        let j = choose|j: int|
                            0 <= j < strutil::split_spec(m[aliases_key()], ',').len() && (
                            #[trigger] strutil::split_spec(m[aliases_key()], ',')[j]) == cmd@
                                && cmd@.len() > 0;
                    }
                }
                false
            },
        }
    }

    /// Whether identity injection applies to `cmd`.
    pub fn is_signoff_cmd(&self, cmd: &str) -> (r: bool)
        ensures
            r == is_signoff_spec(self.config.contents(), cmd@),
    {
        str_eq(cmd, "commit") || str_eq(cmd, "merge") || str_eq(cmd, "revert")
            || self.is_signoff_alias(cmd)
    }

    /// Whether co-author trailers are configured in place of the signoff
    /// flag: the toggle key is set to something other than `0`.
    pub fn co_author_mode(&self) -> (r: bool)
        ensures
            r == (self.config.contents().contains_key(coauthored_key())
                && self.config.contents()[coauthored_key()] != "0"@),
    {
        proof {
            lemma_key_literals();
        }
        let key = namespaced("co-authored");
        match self.config.get(key.as_str()) {
            Ok(v) => !str_eq(v.as_str(), "0"),
            Err(_) => false,
        }
    }

    /// Resolves the author and committer for a signoff-eligible invocation:
    /// the first active author authors, the last commits, and the signoff
    /// flag is asked for exactly when the two differ and nothing suppresses
    /// it.
    pub fn signoff(&self, no_signoff: bool) -> (r: Result<Signoff, Error>)
        ensures
            signoff_outcome(self.config.contents(), self.domain(), no_signoff, r),
    {
        let ghost m = self.config.contents();
        let ghost d = self.domain();
        proof {
            lemma_key_literals();
        }
        let key = namespaced("active");
        let active = match self.config.get(key.as_str()) {
            Ok(v) => v,
            Err(_) => {
                return Err(Error::NoActiveAuthors);
            },
        };
        if active.as_str().unicode_len() == 0 {
            return Err(Error::NoActiveAuthors);
        }
        let inits = strutil::split(active.as_str(), '+');
        let authors = match self.get_authors(&inits) {
            Ok(a) => a,
            Err(e) => {
                return Err(e);
            },
        };
        proof {
            assert(authors.deep_view().len() == strutil::split_spec(m[active_key()], '+').len());
            assert(authors@.len() == authors.deep_view().len());
        }
        let author = Author {
            name: authors[0].name.clone(),
            email: authors[0].email.clone(),
        };
        let last = authors.len() - 1;
        let committer = Author {
            name: authors[last].name.clone(),
            email: authors[last].email.clone(),
        };
        let add_signoff = !no_signoff && !(author == committer);
        Ok(Signoff { author, committer, add_signoff })
    }

    /// Decides the commit-message augmentation for a signoff-eligible
    /// invocation: nothing when suppressed or at most one author is active
    /// or the message is reused; otherwise what the detected message input
    /// method calls for. Reading and writing files stays with the caller.
    pub fn authored_by(&self, command_args: &Vec<String>, no_signoff: bool) -> (r: Result<
        AugmentPlan,
        Error,
    >)
        ensures
            authored_by_outcome(
                self.config.contents(),
                self.domain(),
                command_args.deep_view(),
                no_signoff,
                r,
            ),
    {
        let ghost m = self.config.contents();
        let ghost d = self.domain();
        proof {
            lemma_key_literals();
        }
        let key = namespaced("active");
        let active = match self.config.get(key.as_str()) {
            Ok(v) => v,
            Err(e) => {
                return Err(e);
            },
        };
        let inits = strutil::split(active.as_str(), '+');
        let authors = match self.get_authors(&inits) {
            Ok(a) => a,
            Err(e) => {
                return Err(e);
            },
        };
        proof {
            assert(authors.deep_view().len() == strutil::split_spec(m[active_key()], '+').len());
            assert(authors@.len() == authors.deep_view().len());
        }
        if no_signoff || authors.len() <= 1 {
            return Ok(AugmentPlan::NoChange);
        }
        let trailers = message::co_author_trailers(&authors);
        match message::commit_message_input_method(command_args) {
            CommitMessageInputMethod::Message => {
                let block = strutil::join(&trailers, "\n");
                Ok(AugmentPlan::AppendMessage { block })
            },
            CommitMessageInputMethod::Editor => {
                let block = strutil::join(&trailers, "\n");
                let content = message::editor_template(block.as_str());
                Ok(AugmentPlan::WriteTemplate { content })
            },
            CommitMessageInputMethod::ReuseCommit => Ok(AugmentPlan::NoChange),
            CommitMessageInputMethod::ReuseCommitAndEdit => Ok(AugmentPlan::NoChange),
            CommitMessageInputMethod::Stdin => Ok(AugmentPlan::ReadStdin { trailers }),
            CommitMessageInputMethod::File(path) => Ok(AugmentPlan::ReadFile { path, trailers }),
        }
    }
}

} // verus!
