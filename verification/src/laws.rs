//! The library's general laws, proved once and for all inputs: parsing of
//! well-formed raw author values, the round trip between persisting and
//! reading the active list, rotation, and the one-time shadowing of the
//! pre-existing identity.

use vstd::prelude::*;

use crate::author::{parse_spec, AuthorSpec};
use crate::errors::Error;
use crate::strutil::{contains_char, first_idx, join_spec, lemma_first_idx, lemma_split_step,
    lemma_split_whole, split_spec, trim_end_spec, trim_spec, trim_start_spec};
use crate::{
    active_key, ns_user_email_key, ns_user_name_key, rotate_spec, save_email_view, save_name_view,
    saved_user_view, set_active_view, user_email_key, user_name_key, with_active_view,
};

verus! {

/// Whatever occurs in a trimmed string occurs in the original.
proof fn lemma_trim_start_sub(s: Seq<char>, c: char)
    requires
        contains_char(trim_start_spec(s), c),
    ensures
        contains_char(s, c),
    decreases s.len(),
{
    if s.len() > 0 && crate::strutil::is_space(s[0]) {
        lemma_trim_start_sub(s.drop_first(), c);
        let i = choose|i: int|
            0 <= i < s.drop_first().len() && s.drop_first()[i] == c;
        assert(s[i + 1] == c);
    }
}

proof fn lemma_trim_end_sub(s: Seq<char>, c: char)
    requires
        contains_char(trim_end_spec(s), c),
    ensures
        contains_char(s, c),
    decreases s.len(),
{
    if s.len() > 0 && crate::strutil::is_space(s.last()) {
        lemma_trim_end_sub(s.drop_last(), c);
        let i = choose|i: int|
            0 <= i < s.drop_last().len() && s.drop_last()[i] == c;
        assert(s[i] == c);
    }
}

/// Whatever occurs in `trim_spec(s)` occurs in `s`.
pub proof fn lemma_trim_sub(s: Seq<char>, c: char)
    requires
        contains_char(trim_spec(s), c),
    ensures
        contains_char(s, c),
{
    lemma_trim_end_sub(trim_start_spec(s), c);
    lemma_trim_start_sub(s, c);
}

/// The first separator in `name + ; + seed` stands right after the name
/// when the name itself holds none.
proof fn lemma_first_idx_of_composed(name: Seq<char>, seed: Seq<char>)
    requires
        !contains_char(name, ';'),
    ensures
        first_idx(name + seq![';'] + seed, ';') == name.len(),
{
    let raw = name + seq![';'] + seed;
    lemma_first_idx(raw, ';');
    let f = first_idx(raw, ';');
    assert(raw[name.len() as int] == ';');
    assert(contains_char(raw, ';'));
    if f < name.len() {
        assert(raw[f] == name[f]);
        assert(contains_char(name, ';'));
        assert(false);
    }
    if f > name.len() {
        assert(raw[name.len() as int] != ';');
        assert(false);
    }
}

/// Parsing a well-formed `name; seed` raw value against a configured domain
/// yields the trimmed name and `seed@domain`, when the bare seed holds no
/// `@` of its own.
pub proof fn lemma_parse_well_formed(name: Seq<char>, seed: Seq<char>, domain: Seq<char>)
    requires
        trim_spec(name).len() > 0,
        !contains_char(name, ';'),
        trim_spec(seed).len() > 0,
        !contains_char(seed, ';'),
        !contains_char(seed, '@'),
    ensures
        parse_spec(name + seq![';'] + seed, Some(domain)) == Ok::<AuthorSpec, Error>(
            AuthorSpec { name: trim_spec(name), email: trim_spec(seed) + seq!['@'] + domain },
        ),
{
    let raw = name + seq![';'] + seed;
    lemma_first_idx_of_composed(name, seed);
    assert(crate::author::name_segment(raw) =~= name);
    let rest = raw.skip(name.len() as int + 1);
    assert(rest =~= seed);
    lemma_first_idx(rest, ';');
    assert(raw[name.len() as int] == ';');
    assert(contains_char(raw, ';'));
    if contains_char(rest, ';') {
        let i = choose|i: int| 0 <= i < rest.len() && rest[i] == ';';
        assert(seed[i] == ';');
        assert(false);
    }
    assert(first_idx(rest, ';') == rest.len());
    assert(crate::author::seed_segment(raw) =~= seed);
    if contains_char(trim_spec(seed), '@') {
        lemma_trim_sub(seed, '@');
        assert(false);
    }
}

/// Parsing a well-formed `name; seed` raw value whose trimmed seed already
/// holds `@` yields the seed verbatim as the email, whatever the domain.
pub proof fn lemma_parse_full_email(name: Seq<char>, seed: Seq<char>, domain: Option<Seq<char>>)
    requires
        trim_spec(name).len() > 0,
        !contains_char(name, ';'),
        trim_spec(seed).len() > 0,
        !contains_char(seed, ';'),
        contains_char(trim_spec(seed), '@'),
    ensures
        parse_spec(name + seq![';'] + seed, domain) == Ok::<AuthorSpec, Error>(
            AuthorSpec { name: trim_spec(name), email: trim_spec(seed) },
        ),
{
    let raw = name + seq![';'] + seed;
    lemma_first_idx_of_composed(name, seed);
    assert(crate::author::name_segment(raw) =~= name);
    let rest = raw.skip(name.len() as int + 1);
    assert(rest =~= seed);
    lemma_first_idx(rest, ';');
    assert(raw[name.len() as int] == ';');
    assert(contains_char(raw, ';'));
    if contains_char(rest, ';') {
        let i = choose|i: int| 0 <= i < rest.len() && rest[i] == ';';
        assert(seed[i] == ';');
        assert(false);
    }
    assert(first_idx(rest, ';') == rest.len());
    assert(crate::author::seed_segment(raw) =~= seed);
}

/// Joining at least two segments starts with the first segment, the
/// separator, and the join of the rest.
pub proof fn lemma_join_front(parts: Seq<Seq<char>>, sep: Seq<char>)
    requires
        parts.len() >= 2,
    ensures
        join_spec(parts, sep) == parts[0] + sep + join_spec(parts.drop_first(), sep),
    decreases parts.len(),
{
    if parts.len() == 2 {
        assert(parts.drop_last() =~= seq![parts[0]]);
        assert(parts.drop_first() =~= seq![parts[1]]);
        assert(join_spec(seq![parts[0]], sep) == parts[0]);
        assert(join_spec(seq![parts[1]], sep) == parts[1]);
        assert(parts.drop_last()[0] == parts[0]);
        assert(join_spec(parts, sep) == parts[0] + sep + parts[1]);
        assert(join_spec(parts.drop_first(), sep) == parts[1]);
    } else {
        let t = parts.drop_last();
        lemma_join_front(t, sep);
        assert(parts.drop_first().drop_last() =~= t.drop_first());
        assert(parts.drop_first().last() == parts.last());
        assert(parts.drop_first().len() >= 2);
        assert(join_spec(parts.drop_first(), sep) == join_spec(t.drop_first(), sep) + sep
            + parts.last());
        assert(t[0] == parts[0]);
        assert(join_spec(parts, sep) == join_spec(t, sep) + sep + parts.last());
        assert((parts[0] + sep + join_spec(t.drop_first(), sep)) + sep + parts.last() =~= parts[0]
            + sep + (join_spec(t.drop_first(), sep) + sep + parts.last()));
    }
}

/// Splitting a join on the separator gives the segments back, provided none
/// of them holds the separator and there is at least one.
pub proof fn lemma_split_join_roundtrip(parts: Seq<Seq<char>>, c: char)
    requires
        parts.len() >= 1,
        forall|i: int| 0 <= i < parts.len() ==> !contains_char(#[trigger] parts[i], c),
    ensures
        split_spec(join_spec(parts, seq![c]), c) == parts,
    decreases parts.len(),
{
    if parts.len() == 1 {
        assert(join_spec(parts, seq![c]) == parts[0]);
        lemma_split_whole(parts[0], c);
        assert(seq![parts[0]] =~= parts);
    } else {
        lemma_join_front(parts, seq![c]);
        let rest_join = join_spec(parts.drop_first(), seq![c]);
        let s = join_spec(parts, seq![c]);
        let p0 = parts[0];
        assert(s =~= p0 + seq![c] + rest_join);
        assert(s[p0.len() as int] == c);
        assert forall|j: int| 0 <= j < p0.len() implies s[j] != c by {
            assert(s[j] == p0[j]);
            if s[j] == c {
                assert(contains_char(p0, c));
            }
        }
        lemma_split_step(s, c, p0.len() as int);
        assert(s.take(p0.len() as int) =~= p0);
        assert(s.skip(p0.len() as int + 1) =~= rest_join);
        assert(forall|i: int|
            0 <= i < parts.drop_first().len() ==> !contains_char(
                #[trigger] parts.drop_first()[i],
                c,
            ));
        lemma_split_join_roundtrip(parts.drop_first(), c);
        assert(seq![p0] + parts.drop_first() =~= parts);
    }
}

/// Persisting an active list of one or more initials and reading it back
/// yields exactly the same ordered list, as long as no initials value holds
/// the join character.
pub proof fn lemma_active_round_trip(inits: Seq<Seq<char>>)
    requires
        inits.len() >= 1,
        forall|i: int| 0 <= i < inits.len() ==> !contains_char(#[trigger] inits[i], '+'),
    ensures
        split_spec(join_spec(inits, "+"@), '+') == inits,
{
    reveal_strlit("+");
    assert("+"@ =~= seq!['+']);
    lemma_split_join_roundtrip(inits, '+');
}

/// Rotation keeps the length, swaps a pair, undoes itself on a pair, and
/// leaves an empty list alone.
pub proof fn lemma_rotate_properties(s: Seq<Seq<char>>)
    ensures
        rotate_spec(s).len() == s.len(),
        s.len() == 0 ==> rotate_spec(s) == s,
        s.len() == 2 ==> rotate_spec(s) == seq![s[1], s[0]],
        s.len() == 2 ==> rotate_spec(rotate_spec(s)) == s,
{
    if s.len() == 2 {
        assert(rotate_spec(s) =~= seq![s[1], s[0]]);
        assert(rotate_spec(rotate_spec(s)) =~= s);
    }
}

/// The relevant store keys are pairwise distinct.
proof fn lemma_distinct_keys()
    ensures
        active_key() != user_name_key(),
        active_key() != user_email_key(),
        active_key() != ns_user_name_key(),
        active_key() != ns_user_email_key(),
        user_name_key() != user_email_key(),
        user_name_key() != ns_user_name_key(),
        user_name_key() != ns_user_email_key(),
        user_email_key() != ns_user_name_key(),
        user_email_key() != ns_user_email_key(),
        ns_user_name_key() != ns_user_email_key(),
{
    reveal_strlit("git-together.active");
    reveal_strlit("user.name");
    reveal_strlit("user.email");
    reveal_strlit("git-together.user.name");
    reveal_strlit("git-together.user.email");
    assert(active_key().len() != user_name_key().len());
    assert(active_key().len() != user_email_key().len());
    assert(active_key().len() != ns_user_name_key().len());
    assert(active_key().len() != ns_user_email_key().len());
    assert(user_name_key().len() != user_email_key().len());
    assert(user_name_key().len() != ns_user_name_key().len());
    assert(user_name_key().len() != ns_user_email_key().len());
    assert(user_email_key().len() != ns_user_name_key().len());
    assert(user_email_key().len() != ns_user_email_key().len());
    assert(ns_user_name_key().len() != ns_user_email_key().len());
}

/// Activating authors shadows the pre-existing identity exactly once: the
/// first activation writes the shadow where none exists, and a later
/// activation leaves the shadow untouched.
pub proof fn lemma_identity_saved_once(
    m: Map<Seq<char>, Seq<char>>,
    d: Option<Seq<char>>,
    inits1: Seq<Seq<char>>,
    inits2: Seq<Seq<char>>,
)
    requires
        m.contains_key(user_name_key()),
        m.contains_key(user_email_key()),
    ensures
        ({
            let m1 = set_active_view(m, d, inits1);
            let m2 = set_active_view(m1, d, inits2);
            &&& m1.contains_key(ns_user_name_key())
            &&& m1.contains_key(ns_user_email_key())
            &&& !m.contains_key(ns_user_name_key()) ==> m1[ns_user_name_key()]
                == m[user_name_key()]
            &&& !m.contains_key(ns_user_email_key()) ==> m1[ns_user_email_key()]
                == m[user_email_key()]
            &&& m2[ns_user_name_key()] == m1[ns_user_name_key()]
            &&& m2[ns_user_email_key()] == m1[ns_user_email_key()]
        }),
{
    lemma_distinct_keys();
    let ma = with_active_view(m, inits1);
    let sn = save_name_view(ma);
    let se = save_email_view(sn);
    assert(ma.contains_key(user_name_key()));
    assert(ma.contains_key(user_email_key()));
    assert(sn.contains_key(ns_user_name_key()));
    assert(se.contains_key(ns_user_name_key()));
    assert(se.contains_key(ns_user_email_key()));
    let m1 = set_active_view(m, d, inits1);
    assert(m1.contains_key(ns_user_name_key()));
    assert(m1.contains_key(ns_user_email_key()));
    let mb = with_active_view(m1, inits2);
    assert(mb.contains_key(ns_user_name_key()));
    assert(mb.contains_key(ns_user_email_key()));
    assert(save_name_view(mb) == mb);
    assert(save_email_view(mb) == mb);
    assert(saved_user_view(mb) == mb);
}

/// Activating one or more initials and reading the active list back yields
/// exactly the ordered initials that were set, as long as none of them
/// holds the join character: the activation writes the joined list under
/// the active key, none of its other writes touches that key, and the read
/// splits the join apart again.
pub proof fn lemma_set_then_get_active(
    m: Map<Seq<char>, Seq<char>>,
    d: Option<Seq<char>>,
    inits: Seq<Seq<char>>,
)
    requires
        inits.len() >= 1,
        forall|i: int| 0 <= i < inits.len() ==> !contains_char(#[trigger] inits[i], '+'),
    ensures
        set_active_view(m, d, inits).contains_key(active_key()),
        set_active_view(m, d, inits)[active_key()] == join_spec(inits, "+"@),
        split_spec(set_active_view(m, d, inits)[active_key()], '+') == inits,
{
    lemma_distinct_keys();
    let ma = with_active_view(m, inits);
    assert(ma[active_key()] == join_spec(inits, "+"@));
    let sn = save_name_view(ma);
    assert(sn.contains_key(active_key()) && sn[active_key()] == ma[active_key()]);
    let se = save_email_view(sn);
    assert(se.contains_key(active_key()) && se[active_key()] == ma[active_key()]);
    let m1 = set_active_view(m, d, inits);
    assert(m1.contains_key(active_key()) && m1[active_key()] == join_spec(inits, "+"@));
    lemma_active_round_trip(inits);
}

} // verus!
