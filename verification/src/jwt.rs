//! The token codec: a claim set carrying an identity and its validity
//! window, an exact character-level wire format, and signing and
//! verification against an HMAC-SHA256 signature.
//!
//! A token is three dot-separated segments: the algorithm name, the
//! encoded claims, and the signature of everything before the second dot.

use vstd::prelude::*;
use vstd::string::StringExecFns;
use crate::auth::{Auth, AuthView};
use crate::codec::{
    enc_lstr, enc_u64, parse_lstr_at, parse_u64_at, push_enc_lstr, push_enc_u64, sp_lstr_at,
    sp_u64_at, str_to_chars, string_from_chars, lemma_enc_lstr_len, lemma_enc_u64_shape,
    lemma_sp_lstr_roundtrip, lemma_sp_lstr_sound, lemma_sp_u64_roundtrip, lemma_sp_u64_sound,
};
use crate::codec::str_eq;
use crate::crypto::{hmac_signature, hs256_signature, now_unix_seconds};
use crate::error::LightSpeedError;

verus! {

/// The symmetric signing algorithms the codec recognizes.
#[derive(Debug, Clone, Copy, PartialEq, Eq, Structural)]
pub enum Algorithm {
    HS256,
}

/// The process-wide token configuration, loaded once at startup and shared
/// read-only by every codec instance.
pub struct JwtConfig {
    pub secret: String,
    pub signature_algorithm: Algorithm,
    pub token_validity_minutes: u32,
}

/// The signed claim set: the identity payload and its timing.
pub struct JWT {
    pub payload: Auth,
    pub exp: u64,
    pub iat: u64,
    pub sub: String,
}

/// The mathematical value of a [`JWT`].
pub struct JwtView {
    pub payload: AuthView,
    pub exp: u64,
    pub iat: u64,
    pub sub: Seq<char>,
}

impl View for JWT {
    type V = JwtView;

    open spec fn view(&self) -> JwtView {
        JwtView { payload: self.payload@, exp: self.exp, iat: self.iat, sub: self.sub@ }
    }
}

/// Whether every string of the claim set has an encodable length.
/// Every claim set held in exec data satisfies this.
pub open spec fn jwt_wf(j: JwtView) -> bool {
    &&& j.payload.username.len() <= u64::MAX
    &&& j.payload.roles.len() <= u64::MAX
    &&& (forall|i: int|
        0 <= i < j.payload.roles.len() ==> (#[trigger] j.payload.roles[i]).len() <= u64::MAX)
    &&& j.sub.len() <= u64::MAX
}

// --- the payload segment ---

/// The role list: each role length-prefixed, in order.
pub open spec fn enc_roles(rs: Seq<Seq<char>>) -> Seq<char>
    decreases rs.len(),
{
    if rs.len() == 0 {
        Seq::empty()
    } else {
        enc_lstr(rs[0]) + enc_roles(rs.drop_first())
    }
}

/// The payload segment: username, numeric id, role count, the roles,
/// issue and expiry instants, and the subject.
pub open spec fn enc_payload(j: JwtView) -> Seq<char> {
    enc_lstr(j.payload.username) + enc_u64(j.payload.id as u64) + enc_u64(
        j.payload.roles.len() as u64,
    ) + enc_roles(j.payload.roles) + enc_u64(j.iat) + enc_u64(j.exp) + enc_lstr(j.sub)
}

/// Parse `count` length-prefixed roles at `pos`.
pub open spec fn sp_roles_at(s: Seq<char>, pos: int, count: nat) -> Option<(Seq<Seq<char>>, int)>
    decreases count,
{
    if count == 0 {
        Some((Seq::empty(), pos))
    } else {
        match sp_lstr_at(s, pos) {
            Some((r, p1)) => match sp_roles_at(s, p1, (count - 1) as nat) {
                Some((rs, p2)) => Some((seq![r] + rs, p2)),
                None => None,
            },
            None => None,
        }
    }
}

/// Parse a whole payload segment at `pos`: the claim set and the position
/// just past the segment.
pub open spec fn sp_payload_at(s: Seq<char>, pos: int) -> Option<(JwtView, int)> {
    match sp_lstr_at(s, pos) {
        Some((username, p1)) => match sp_u64_at(s, p1) {
            Some(idu) => match sp_u64_at(s, p1 + 16) {
                Some(nroles) => match sp_roles_at(s, p1 + 32, nroles as nat) {
                    Some((roles, p2)) => match sp_u64_at(s, p2) {
                        Some(iat) => match sp_u64_at(s, p2 + 16) {
                            Some(exp) => match sp_lstr_at(s, p2 + 32) {
                                Some((sub, p3)) => Some(
                                    (
                                        JwtView {
                                            payload: AuthView {
                                                username,
                                                id: idu as i64,
                                                roles,
                                            },
                                            exp,
                                            iat,
                                            sub,
                                        },
                                        p3,
                                    ),
                                ),
                                None => None,
                            },
                            None => None,
                        },
                        None => None,
                    },
                    None => None,
                },
                None => None,
            },
            None => None,
        },
        None => None,
    }
}

// --- executable encoding ---

/// Appending one role to a list appends its encoding.
proof fn lemma_enc_roles_snoc(rs: Seq<Seq<char>>, r: Seq<char>)
    ensures
        enc_roles(rs.push(r)) == enc_roles(rs) + enc_lstr(r),
    decreases rs.len(),
{
    if rs.len() == 0 {
        assert(rs.push(r)[0] == r);
        assert(rs.push(r).drop_first() =~= Seq::<Seq<char>>::empty());
        assert(rs.push(r).drop_first() == Seq::<Seq<char>>::empty());
        assert(enc_roles(Seq::<Seq<char>>::empty()) == Seq::<char>::empty());
        assert(enc_roles(rs.push(r)) == enc_lstr(r) + Seq::<char>::empty());
        assert(enc_roles(rs.push(r)) =~= enc_lstr(r));
        assert(enc_roles(rs) + enc_lstr(r) =~= enc_lstr(r));
    } else {
        assert(rs.push(r)[0] == rs[0]);
        assert(rs.push(r).drop_first() =~= rs.drop_first().push(r));
        assert(rs.push(r).drop_first() == rs.drop_first().push(r));
        lemma_enc_roles_snoc(rs.drop_first(), r);
        assert(enc_roles(rs.push(r)) == enc_lstr(rs[0]) + enc_roles(rs.drop_first().push(r)));
        assert(enc_roles(rs.push(r)) =~= enc_roles(rs) + enc_lstr(r));
    }
}

/// Appends the payload segment of `token` to `out`.
pub fn push_enc_payload(out: &mut Vec<char>, token: &JWT)
    ensures
        final(out)@ == old(out)@ + enc_payload(token@),
{
    let username_chars = str_to_chars(token.payload.username.as_str());
    push_enc_lstr(out, &username_chars);
    push_enc_u64(out, token.payload.id as u64);
    push_enc_u64(out, token.payload.roles.len() as u64);
    let ghost roles = token.payload@.roles;
    let ghost head = old(out)@ + enc_lstr(token.payload.username@) + enc_u64(
        token.payload.id as u64,
    ) + enc_u64(roles.len() as u64);
    let mut i: usize = 0;
    while i < token.payload.roles.len()
        invariant
            i <= token.payload.roles.len(),
            roles == token.payload@.roles,
            roles.len() == token.payload.roles.len(),
            head == old(out)@ + enc_lstr(token.payload.username@) + enc_u64(
                token.payload.id as u64,
            ) + enc_u64(roles.len() as u64),
            out@ == head + enc_roles(roles.take(i as int)),
        decreases token.payload.roles.len() - i,
    {
        let role_chars = str_to_chars(token.payload.roles[i].as_str());
        push_enc_lstr(out, &role_chars);
        proof {
            assert(roles.take(i + 1 as int) =~= roles.take(i as int).push(roles[i as int]));
            lemma_enc_roles_snoc(roles.take(i as int), roles[i as int]);
            assert(out@ =~= head + enc_roles(roles.take(i + 1 as int)));
        }
        i += 1;
    }
    proof {
        assert(roles.take(roles.len() as int) =~= roles);
    }
    push_enc_u64(out, token.iat);
    push_enc_u64(out, token.exp);
    let sub_chars = str_to_chars(token.sub.as_str());
    push_enc_lstr(out, &sub_chars);
    proof {
        assert(out@ =~= old(out)@ + enc_payload(token@));
    }
}

// --- executable parsing ---

/// Parses `count` length-prefixed roles at `pos`.
pub fn parse_roles_at(s: &Vec<char>, pos: usize, count: u64) -> (r: Option<(Vec<String>, usize)>)
    requires
        pos <= s.len(),
    ensures
        match r {
            Some(p) => {
                &&& sp_roles_at(s@, pos as int, count as nat) == Some(
                    (p.0.deep_view(), p.1 as int),
                )
                &&& p.1 <= s.len()
            },
            None => sp_roles_at(s@, pos as int, count as nat) is None,
        },
    decreases count,
{
    if count == 0 {
        let empty: Vec<String> = Vec::new();
        proof {
            assert(empty.deep_view() =~= Seq::<Seq<char>>::empty());
        }
        return Some((empty, pos));
    }
    let (first_chars, p1) = match parse_lstr_at(s, pos) {
        Some(p) => p,
        None => {
            return None;
        },
    };
    let first = string_from_chars(&first_chars);
    let (mut rest, p2) = match parse_roles_at(s, p1, count - 1) {
        Some(p) => p,
        None => {
            return None;
        },
    };
    let ghost rest_exec = rest@;
    let ghost rest_view = rest.deep_view();
    rest.insert(0, first);
    proof {
        assert(rest@ == rest_exec.insert(0, first));
        assert forall|k: int| 0 <= k < rest.deep_view().len() implies #[trigger] rest.deep_view()[k]
            == (seq![first_chars@] + rest_view)[k] by {
            if k == 0 {
                assert(rest@[0] == first);
            } else {
                assert(rest@[k] == rest_exec[k - 1]);
            }
        }
        assert(rest.deep_view() =~= seq![first_chars@] + rest_view);
    }
    Some((rest, p2))
}

/// Parses a whole payload segment at `pos`.
pub fn parse_payload_at(s: &Vec<char>, pos: usize) -> (r: Option<(JWT, usize)>)
    requires
        pos <= s.len(),
    ensures
        match r {
            Some(p) => {
                &&& sp_payload_at(s@, pos as int) == Some((p.0@, p.1 as int))
                &&& p.1 <= s.len()
            },
            None => sp_payload_at(s@, pos as int) is None,
        },
{
    let (username_chars, p1) = match parse_lstr_at(s, pos) {
        Some(p) => p,
        None => {
            return None;
        },
    };
    let idu = match parse_u64_at(s, p1) {
        Some(v) => v,
        None => {
            return None;
        },
    };
    let nroles = match parse_u64_at(s, p1 + 16) {
        Some(v) => v,
        None => {
            return None;
        },
    };
    let (roles, p2) = match parse_roles_at(s, p1 + 32, nroles) {
        Some(p) => p,
        None => {
            return None;
        },
    };
    let iat = match parse_u64_at(s, p2) {
        Some(v) => v,
        None => {
            return None;
        },
    };
    let exp = match parse_u64_at(s, p2 + 16) {
        Some(v) => v,
        None => {
            return None;
        },
    };
    let (sub_chars, p3) = match parse_lstr_at(s, p2 + 32) {
        Some(p) => p,
        None => {
            return None;
        },
    };
    let jwt = JWT {
        payload: Auth {
            username: string_from_chars(&username_chars),
            id: idu as i64,
            roles,
        },
        exp,
        iat,
        sub: string_from_chars(&sub_chars),
    };
    Some((jwt, p3))
}

// --- the parser accepts exactly the encoder's output ---

/// Casting an `i64` through `u64` preserves it.
proof fn lemma_i64_roundtrip(x: i64)
    ensures
        ((x as u64) as i64) == x,
{
    assert(((x as u64) as i64) == x) by (bit_vector);
}

/// Casting a `u64` through `i64` preserves it.
proof fn lemma_u64_roundtrip(x: u64)
    ensures
        ((x as i64) as u64) == x,
{
    assert(((x as i64) as u64) == x) by (bit_vector);
}

/// Parsing the encoding of a role list yields the list, wherever the
/// encoding stands in a larger sequence.
proof fn lemma_sp_roles_roundtrip(s: Seq<char>, pos: int, rs: Seq<Seq<char>>)
    requires
        0 <= pos,
        pos + enc_roles(rs).len() <= s.len(),
        forall|i: int| 0 <= i < rs.len() ==> (#[trigger] rs[i]).len() <= u64::MAX,
        s.subrange(pos, pos + enc_roles(rs).len() as int) == enc_roles(rs),
    ensures
        sp_roles_at(s, pos, rs.len()) == Some((rs, pos + enc_roles(rs).len())),
    decreases rs.len(),
{
    if rs.len() == 0 {
        assert(rs =~= Seq::<Seq<char>>::empty());
    } else {
        let r0 = rs[0];
        let rest = rs.drop_first();
        lemma_enc_lstr_len(r0);
        let l0 = enc_lstr(r0).len() as int;
        let lr = enc_roles(rest).len() as int;
        assert(enc_roles(rs) == enc_lstr(r0) + enc_roles(rest));
        assert forall|k: int| 0 <= k < l0 implies s.subrange(pos, pos + l0)[k] == enc_lstr(r0)[k]
            by {
            assert(s.subrange(pos, pos + l0 + lr)[k] == enc_roles(rs)[k]);
            assert(s[pos + k] == (enc_lstr(r0) + enc_roles(rest))[k]);
        }
        assert(s.subrange(pos, pos + l0) =~= enc_lstr(r0));
        lemma_sp_lstr_roundtrip(s, pos, r0);
        assert forall|k: int|
            0 <= k < lr implies s.subrange(pos + l0, pos + l0 + lr)[k] == enc_roles(rest)[k] by {
            assert(s.subrange(pos, pos + l0 + lr)[l0 + k] == enc_roles(rs)[l0 + k]);
            assert(s[pos + l0 + k] == (enc_lstr(r0) + enc_roles(rest))[l0 + k]);
        }
        assert(s.subrange(pos + l0, pos + l0 + lr) =~= enc_roles(rest));
        assert(forall|i: int| 0 <= i < rest.len() ==> (#[trigger] rest[i]).len() <= u64::MAX) by {
            assert(forall|i: int| 0 <= i < rest.len() ==> rest[i] == #[trigger] rs[i + 1]);
        }
        lemma_sp_roles_roundtrip(s, pos + l0, rest);
        assert(sp_lstr_at(s, pos) == Some((r0, pos + l0)));
        assert(sp_roles_at(s, pos + l0, rest.len()) == Some((rest, pos + l0 + lr)));
        assert((rs.len() - 1) as nat == rest.len());
        assert(seq![r0] + rest =~= rs);
    }
}

/// A successful role-list parse reads exactly the canonical encoding of
/// its result.
proof fn lemma_sp_roles_sound(s: Seq<char>, pos: int, count: nat)
    requires
        0 <= pos <= s.len(),
        sp_roles_at(s, pos, count) is Some,
    ensures
        ({
            let (rs, end) = sp_roles_at(s, pos, count)->Some_0;
            &&& rs.len() == count
            &&& pos <= end <= s.len()
            &&& (forall|i: int| 0 <= i < rs.len() ==> (#[trigger] rs[i]).len() <= u64::MAX)
            &&& end - pos == enc_roles(rs).len()
            &&& s.subrange(pos, end) == enc_roles(rs)
        }),
    decreases count,
{
    let (rs, end) = sp_roles_at(s, pos, count)->Some_0;
    if count == 0 {
        assert(s.subrange(pos, pos) =~= Seq::<char>::empty());
    } else {
        let (r0, p1) = sp_lstr_at(s, pos)->Some_0;
        lemma_sp_lstr_sound(s, pos, r0, p1);
        lemma_sp_roles_sound(s, p1, (count - 1) as nat);
        let (rest, end2) = sp_roles_at(s, p1, (count - 1) as nat)->Some_0;
        assert(rs == seq![r0] + rest);
        assert(end == end2);
        assert(rs[0] == r0);
        assert(rs.drop_first() =~= rest);
        assert(enc_roles(rs) == enc_lstr(r0) + enc_roles(rest));
        assert(forall|i: int| 0 <= i < rs.len() ==> (#[trigger] rs[i]).len() <= u64::MAX) by {
            assert(forall|i: int| 1 <= i < rs.len() ==> rs[i] == #[trigger] rest[i - 1]);
        }
        assert(s.subrange(pos, end) =~= s.subrange(pos, p1) + s.subrange(p1, end));
        assert(s.subrange(pos, end) =~= enc_roles(rs));
    }
}

/// Parsing the encoding of a claim set yields the claim set, wherever the
/// encoding stands in a larger sequence.
proof fn lemma_sp_payload_roundtrip(s: Seq<char>, pos: int, j: JwtView)
    requires
        jwt_wf(j),
        0 <= pos,
        pos + enc_payload(j).len() <= s.len(),
        s.subrange(pos, pos + enc_payload(j).len() as int) == enc_payload(j),
    ensures
        sp_payload_at(s, pos) == Some((j, pos + enc_payload(j).len())),
{
    let pa = enc_lstr(j.payload.username);
    let pb = enc_u64(j.payload.id as u64);
    let pc = enc_u64(j.payload.roles.len() as u64);
    let pd = enc_roles(j.payload.roles);
    let pe = enc_u64(j.iat);
    let pf = enc_u64(j.exp);
    let pg = enc_lstr(j.sub);
    let total = enc_payload(j).len() as int;
    lemma_enc_lstr_len(j.payload.username);
    lemma_enc_lstr_len(j.sub);
    lemma_enc_u64_shape(j.payload.id as u64);
    lemma_enc_u64_shape(j.payload.roles.len() as u64);
    lemma_enc_u64_shape(j.iat);
    lemma_enc_u64_shape(j.exp);
    let a = pos + pa.len() as int;
    let b = a + 16;
    let c = b + 16;
    let d = c + pd.len() as int;
    let e = d + 16;
    let f = e + 16;
    let g = f + pg.len() as int;
    assert(g == pos + total);
    assert forall|k: int| 0 <= k < total implies s[pos + k] == #[trigger] enc_payload(j)[k] by {
        assert(s.subrange(pos, pos + total)[k] == enc_payload(j)[k]);
    }
    assert forall|k: int| 0 <= k < pa.len() implies s.subrange(pos, a)[k] == pa[k] by {
        assert(s[pos + k] == enc_payload(j)[k]);
    }
    assert(s.subrange(pos, a) =~= pa);
    lemma_sp_lstr_roundtrip(s, pos, j.payload.username);
    assert forall|k: int| 0 <= k < 16 implies s.subrange(a, b)[k] == pb[k] by {
        assert(s[a + k] == enc_payload(j)[(a - pos) + k]);
    }
    assert(s.subrange(a, b) =~= pb);
    lemma_sp_u64_roundtrip(s, a, j.payload.id as u64);
    assert forall|k: int| 0 <= k < 16 implies s.subrange(b, c)[k] == pc[k] by {
        assert(s[b + k] == enc_payload(j)[(b - pos) + k]);
    }
    assert(s.subrange(b, c) =~= pc);
    lemma_sp_u64_roundtrip(s, b, j.payload.roles.len() as u64);
    assert forall|k: int| 0 <= k < pd.len() implies s.subrange(c, d)[k] == pd[k] by {
        assert(s[c + k] == enc_payload(j)[(c - pos) + k]);
    }
    assert(s.subrange(c, d) =~= pd);
    lemma_sp_roles_roundtrip(s, c, j.payload.roles);
    assert forall|k: int| 0 <= k < 16 implies s.subrange(d, e)[k] == pe[k] by {
        assert(s[d + k] == enc_payload(j)[(d - pos) + k]);
    }
    assert(s.subrange(d, e) =~= pe);
    lemma_sp_u64_roundtrip(s, d, j.iat);
    assert forall|k: int| 0 <= k < 16 implies s.subrange(e, f)[k] == pf[k] by {
        assert(s[e + k] == enc_payload(j)[(e - pos) + k]);
    }
    assert(s.subrange(e, f) =~= pf);
    lemma_sp_u64_roundtrip(s, e, j.exp);
    assert forall|k: int| 0 <= k < pg.len() implies s.subrange(f, g)[k] == pg[k] by {
        assert(s[f + k] == enc_payload(j)[(f - pos) + k]);
    }
    assert(s.subrange(f, g) =~= pg);
    lemma_sp_lstr_roundtrip(s, f, j.sub);
    lemma_i64_roundtrip(j.payload.id);
    assert((j.payload.roles.len() as u64) as nat == j.payload.roles.len());
    assert(sp_payload_at(s, pos) == Some(
        (
            JwtView {
                payload: AuthView {
                    username: j.payload.username,
                    id: j.payload.id,
                    roles: j.payload.roles,
                },
                exp: j.exp,
                iat: j.iat,
                sub: j.sub,
            },
            g,
        ),
    ));
}

/// A successful payload parse reads exactly the canonical encoding of its
/// result, which is well formed.
proof fn lemma_sp_payload_sound(s: Seq<char>, pos: int)
    requires
        0 <= pos <= s.len(),
        sp_payload_at(s, pos) is Some,
    ensures
        ({
            let (j, end) = sp_payload_at(s, pos)->Some_0;
            &&& jwt_wf(j)
            &&& pos <= end <= s.len()
            &&& end - pos == enc_payload(j).len()
            &&& s.subrange(pos, end) == enc_payload(j)
        }),
{
    let (j, end) = sp_payload_at(s, pos)->Some_0;
    let (username, p1) = sp_lstr_at(s, pos)->Some_0;
    lemma_sp_lstr_sound(s, pos, username, p1);
    let idu = sp_u64_at(s, p1)->Some_0;
    lemma_sp_u64_sound(s, p1, idu);
    let nroles = sp_u64_at(s, p1 + 16)->Some_0;
    lemma_sp_u64_sound(s, p1 + 16, nroles);
    lemma_sp_roles_sound(s, p1 + 32, nroles as nat);
    let (roles, p2) = sp_roles_at(s, p1 + 32, nroles as nat)->Some_0;
    let iat = sp_u64_at(s, p2)->Some_0;
    lemma_sp_u64_sound(s, p2, iat);
    let exp = sp_u64_at(s, p2 + 16)->Some_0;
    lemma_sp_u64_sound(s, p2 + 16, exp);
    let (sub, p3) = sp_lstr_at(s, p2 + 32)->Some_0;
    lemma_sp_lstr_sound(s, p2 + 32, sub, p3);
    assert(j.payload.username == username);
    assert(j.payload.id == idu as i64);
    assert(j.payload.roles == roles);
    assert(j.iat == iat && j.exp == exp && j.sub == sub);
    assert(end == p3);
    lemma_u64_roundtrip(idu);
    assert(roles.len() == nroles as nat);
    assert((roles.len() as u64) == nroles);
    assert(jwt_wf(j));
    assert(s.subrange(pos, end) =~= s.subrange(pos, p1) + s.subrange(p1, p1 + 16) + s.subrange(
        p1 + 16,
        p1 + 32,
    ) + s.subrange(p1 + 32, p2) + s.subrange(p2, p2 + 16) + s.subrange(p2 + 16, p2 + 32)
        + s.subrange(p2 + 32, p3));
    assert(enc_payload(j) == enc_lstr(username) + enc_u64(idu) + enc_u64(nroles) + enc_roles(roles)
        + enc_u64(iat) + enc_u64(exp) + enc_lstr(sub));
    assert(s.subrange(pos, end) =~= enc_payload(j));
}

// --- the token wire format ---

/// The characters of the fixed header segment.
pub open spec fn alg_chars() -> Seq<char> {
    seq!['H', 'S', '2', '5', '6']
}

/// What the signature is computed over: the header segment, a dot, and the
/// payload segment.
pub open spec fn signing_input_of(j: JwtView) -> Seq<char> {
    alg_chars() + seq!['.'] + enc_payload(j)
}

/// The full token: signing input, a dot, and the signature under `secret`.
pub open spec fn token_of(secret: Seq<char>, j: JwtView) -> Seq<char> {
    signing_input_of(j) + seq!['.'] + hmac_signature(secret, signing_input_of(j))
}

/// What verifying a token at one instant yields.
pub enum TokenOutcome {
    /// The signature is valid and the token is not yet expired.
    Valid(JwtView),
    /// The token is malformed or its signature does not verify.
    Invalid,
    /// The signature is valid but the instant is at or past expiry.
    Expired,
}

/// The structural decomposition of a token: its claim set and the position
/// of the dot before the signature segment. `None` when the token does not
/// have the header, payload, dot shape.
pub open spec fn token_parts(token: Seq<char>) -> Option<(JwtView, int)> {
    if token.len() >= 6 && token.subrange(0, 6) == alg_chars() + seq!['.'] {
        match sp_payload_at(token, 6) {
            Some((j, end)) => {
                if end < token.len() && token[end] == '.' {
                    Some((j, end))
                } else {
                    None
                }
            },
            None => None,
        }
    } else {
        None
    }
}

/// Whether the token is well shaped and its signature segment equals the
/// signature of everything before it under `secret`.
pub open spec fn token_well_signed(secret: Seq<char>, token: Seq<char>) -> bool {
    match token_parts(token) {
        Some(p) => token.subrange(p.1 + 1, token.len() as int) == hmac_signature(
            secret,
            token.subrange(0, p.1),
        ),
        None => false,
    }
}

/// The verification outcome of a token at instant `now`: the signature is
/// checked first, and only a well-signed token can be reported expired.
pub open spec fn token_outcome(secret: Seq<char>, token: Seq<char>, now: u64) -> TokenOutcome {
    match token_parts(token) {
        Some(p) => {
            if !token_well_signed(secret, token) {
                TokenOutcome::Invalid
            } else if now < p.0.exp {
                TokenOutcome::Valid(p.0)
            } else {
                TokenOutcome::Expired
            }
        },
        None => TokenOutcome::Invalid,
    }
}

/// Signs claim sets into tokens and verifies tokens back into claim sets,
/// statelessly, under a fixed secret and validity window.
pub struct JwtService {
    pub secret: String,
    pub token_validity_secs: u64,
}

impl JwtService {
    /// Builds a codec from a configuration. The configuration is rejected
    /// when the secret is empty or the validity window is zero minutes.
    pub fn new(config: &JwtConfig) -> (r: Result<JwtService, LightSpeedError>)
        ensures
            config.secret@.len() > 0 && config.token_validity_minutes > 0 ==> (r matches Ok(s)
                && s.secret@ == config.secret@ && s.token_validity_secs
                == config.token_validity_minutes * 60),
            !(config.secret@.len() > 0 && config.token_validity_minutes > 0) ==> (r matches Err(e)
                && e is ModuleBuilderError),
    {
        if config.secret.as_str().unicode_len() == 0 || config.token_validity_minutes == 0 {
            Err(LightSpeedError::ModuleBuilderError { message: String::new() })
        } else {
            Ok(
                JwtService {
                    secret: config.secret.clone(),
                    token_validity_secs: (config.token_validity_minutes as u64) * 60,
                },
            )
        }
    }

    /// Encodes and signs the given claim set exactly as it stands.
    pub fn generate_from_token(&self, token: &JWT) -> (r: Result<String, LightSpeedError>)
        ensures
            r matches Ok(s) && s@ == token_of(self.secret@, token@),
    {
        let mut chars: Vec<char> = Vec::new();
        chars.push('H');
        chars.push('S');
        chars.push('2');
        chars.push('5');
        chars.push('6');
        chars.push('.');
        proof {
            assert(chars@ =~= alg_chars() + seq!['.']);
        }
        push_enc_payload(&mut chars, token);
        proof {
            assert(chars@ =~= signing_input_of(token@));
        }
        let signing_input = string_from_chars(&chars);
        let sig = hs256_signature(self.secret.as_str(), signing_input.as_str());
        let dotted = signing_input.concat(".");
        let result = dotted.concat(sig.as_str());
        proof {
            reveal_strlit(".");
            assert("."@ =~= seq!['.']);
            assert(result@ =~= token_of(self.secret@, token@));
        }
        Ok(result)
    }

    /// Signs an identity with the validity window anchored at the given
    /// instant: issued now, expiring `token_validity_secs` later, with an
    /// empty subject. Fails only when the expiry would not be
    /// representable.
    pub fn generate_from_payload_at(&self, payload: &Auth, now: u64) -> (r: Result<
        (JWT, String),
        LightSpeedError,
    >)
        ensures
            now + self.token_validity_secs <= u64::MAX ==> (r matches Ok(p) && p.0@ == (JwtView {
                payload: payload@,
                exp: (now + self.token_validity_secs) as u64,
                iat: now,
                sub: Seq::empty(),
            }) && p.1@ == token_of(self.secret@, p.0@)),
            now + self.token_validity_secs > u64::MAX ==> (r matches Err(e)
                && e is GenerateTokenError),
    {
        let exp = match now.checked_add(self.token_validity_secs) {
            Some(e) => e,
            None => {
                return Err(LightSpeedError::GenerateTokenError { message: String::new() });
            },
        };
        let jwt = JWT { payload: payload.duplicate(), exp, iat: now, sub: String::new() };
        proof {
            assert(jwt@.sub =~= Seq::<char>::empty());
        }
        match self.generate_from_token(&jwt) {
            Ok(token_string) => Ok((jwt, token_string)),
            Err(e) => Err(e),
        }
    }

    /// Signs an identity with the validity window anchored at the clock's
    /// current reading.
    pub fn generate_from_payload(&self, payload: &Auth) -> (r: Result<
        (JWT, String),
        LightSpeedError,
    >)
        ensures
            r matches Ok(p) ==> (p.0@.payload == payload@ && p.0@.sub == Seq::<char>::empty()
                && p.0@.iat + self.token_validity_secs == p.0@.exp && p.1@ == token_of(
                self.secret@,
                p.0@,
            )),
            r matches Err(e) ==> e is GenerateTokenError,
    {
        let now = now_unix_seconds();
        self.generate_from_payload_at(payload, now)
    }

    /// Verifies a token at the given instant: the signature is checked
    /// first, and only a well-signed token is examined for expiry, so a
    /// presenter cannot learn whether a forged token would have been
    /// merely expired.
    pub fn parse_token(&self, token: &str, now: u64) -> (r: Result<JWT, LightSpeedError>)
        ensures
            match token_outcome(self.secret@, token@, now) {
                TokenOutcome::Valid(j) => r matches Ok(t) && t@ == j,
                TokenOutcome::Invalid => r matches Err(e) && e is InvalidTokenError,
                TokenOutcome::Expired => r matches Err(e) && e is ExpiredTokenError,
            },
    {
        let chars = str_to_chars(token);
        if chars.len() < 6 {
            return Err(LightSpeedError::InvalidTokenError { message: "invalid token".to_owned() });
        }
        if !(chars[0] == 'H' && chars[1] == 'S' && chars[2] == '2' && chars[3] == '5' && chars[4]
            == '6' && chars[5] == '.') {
            proof {
                if token@.subrange(0, 6) == alg_chars() + seq!['.'] {
                    assert(token@.subrange(0, 6)[0] == token@[0]);
                    assert(token@.subrange(0, 6)[1] == token@[1]);
                    assert(token@.subrange(0, 6)[2] == token@[2]);
                    assert(token@.subrange(0, 6)[3] == token@[3]);
                    assert(token@.subrange(0, 6)[4] == token@[4]);
                    assert(token@.subrange(0, 6)[5] == token@[5]);
                }
            }
            return Err(LightSpeedError::InvalidTokenError { message: "invalid token".to_owned() });
        }
        proof {
            assert(token@.subrange(0, 6) =~= alg_chars() + seq!['.']);
        }
        let (jwt, end) = match parse_payload_at(&chars, 6) {
            Some(p) => p,
            None => {
                return Err(
                    LightSpeedError::InvalidTokenError { message: "invalid token".to_owned() },
                );
            },
        };
        if end >= chars.len() {
            return Err(LightSpeedError::InvalidTokenError { message: "invalid token".to_owned() });
        }
        if chars[end] != '.' {
            return Err(LightSpeedError::InvalidTokenError { message: "invalid token".to_owned() });
        }
        proof {
            assert(token_parts(token@) == Some((jwt@, end as int)));
        }
        let mut si: Vec<char> = Vec::new();
        let mut i: usize = 0;
        while i < end
            invariant
                i <= end,
                end <= chars.len(),
                chars@ == token@,
                si@ == token@.subrange(0, i as int),
            decreases end - i,
        {
            si.push(chars[i]);
            assert(si@ =~= token@.subrange(0, i + 1 as int));
            i += 1;
        }
        let signing_input = string_from_chars(&si);
        let expected = hs256_signature(self.secret.as_str(), signing_input.as_str());
        let mut sg: Vec<char> = Vec::new();
        let mut k: usize = end + 1;
        while k < chars.len()
            invariant
                end + 1 <= k <= chars.len(),
                chars@ == token@,
                sg@ == token@.subrange(end + 1 as int, k as int),
            decreases chars.len() - k,
        {
            sg.push(chars[k]);
            assert(sg@ =~= token@.subrange(end + 1 as int, k + 1 as int));
            k += 1;
        }
        let sig_str = string_from_chars(&sg);
        if !str_eq(sig_str.as_str(), expected.as_str()) {
            proof {
                assert(!token_well_signed(self.secret@, token@));
            }
            return Err(LightSpeedError::InvalidTokenError { message: "invalid token".to_owned() });
        }
        proof {
            assert(token_well_signed(self.secret@, token@));
        }
        if now < jwt.exp {
            Ok(jwt)
        } else {
            Err(LightSpeedError::ExpiredTokenError { message: "token expired".to_owned() })
        }
    }

    /// Verifies a token at the clock's current reading and returns its
    /// identity payload. A token that is not well signed is rejected as
    /// invalid whatever the clock reads; a well-signed token is either
    /// accepted or reported expired.
    pub fn parse_payload(&self, token: &str) -> (r: Result<Auth, LightSpeedError>)
        ensures
            r matches Ok(a) ==> (token_parts(token@) matches Some(p) && a@ == p.0.payload
                && token_well_signed(self.secret@, token@)),
            r matches Err(e) ==> (e is InvalidTokenError || e is ExpiredTokenError),
            (r matches Err(e) && e is InvalidTokenError) <==> !token_well_signed(
                self.secret@,
                token@,
            ),
    {
        let now = now_unix_seconds();
        match self.parse_token(token, now) {
            Ok(jwt) => Ok(jwt.payload),
            Err(e) => Err(e),
        }
    }
}

// --- what signing and verifying together guarantee ---

/// A token issued for claims `j` under `secret` decomposes into exactly
/// `j` and carries the signature of its own signing input.
proof fn lemma_token_of_parts(secret: Seq<char>, j: JwtView)
    requires
        jwt_wf(j),
    ensures
        ({
            let t = token_of(secret, j);
            let end = 6 + enc_payload(j).len() as int;
            &&& token_parts(t) == Some((j, end))
            &&& t.subrange(0, end) == signing_input_of(j)
            &&& t.subrange(end + 1, t.len() as int) == hmac_signature(secret, signing_input_of(j))
        }),
{
    let t = token_of(secret, j);
    let si = signing_input_of(j);
    let mac = hmac_signature(secret, si);
    let el = enc_payload(j).len() as int;
    let end = 6 + el;
    assert(si.len() == 6 + el);
    assert(t.len() == si.len() + 1 + mac.len());
    assert forall|k: int| 0 <= k < si.len() implies t[k] == si[k] by {}
    assert(t.subrange(0, 6) =~= alg_chars() + seq!['.']) by {
        assert(forall|k: int| 0 <= k < 6 ==> si[k] == #[trigger] (alg_chars() + seq!['.'])[k]);
    }
    assert(t.subrange(6, end) =~= enc_payload(j)) by {
        assert(forall|k: int| 0 <= k < el ==> si[6 + k] == #[trigger] enc_payload(j)[k]);
    }
    lemma_sp_payload_roundtrip(t, 6, j);
    assert(t[end] == '.');
    assert(end < t.len());
    assert(token_parts(t) == Some((j, end)));
    assert(t.subrange(0, end) =~= si);
    assert(t.subrange(end + 1, t.len() as int) =~= mac);
}

/// Round trip: a token issued for claims `j` under `secret` verifies, at
/// any instant strictly before `j.exp`, to exactly `j`; at `j.exp` or any
/// later instant it is reported expired, never invalid. The expiry
/// boundary is exclusive: the token is good at `exp - 1` and expired at
/// `exp`.
pub proof fn lemma_token_roundtrip(secret: Seq<char>, j: JwtView, now: u64)
    requires
        jwt_wf(j),
    ensures
        token_outcome(secret, token_of(secret, j), now) == (if now < j.exp {
            TokenOutcome::Valid(j)
        } else {
            TokenOutcome::Expired
        }),
{
    lemma_token_of_parts(secret, j);
    let t = token_of(secret, j);
    assert(token_well_signed(secret, t));
}

/// A token issued under one secret and verified under another is rejected
/// as invalid, never as expired, whatever its claimed expiry and whatever
/// the instant, whenever the two secrets sign its input differently.
pub proof fn lemma_wrong_secret_rejected(s1: Seq<char>, s2: Seq<char>, j: JwtView, now: u64)
    requires
        jwt_wf(j),
    ensures
        hmac_signature(s2, signing_input_of(j)) != hmac_signature(s1, signing_input_of(j))
            ==> token_outcome(s2, token_of(s1, j), now) == TokenOutcome::Invalid,
{
    lemma_token_of_parts(s1, j);
    let t = token_of(s1, j);
    if hmac_signature(s2, signing_input_of(j)) != hmac_signature(s1, signing_input_of(j)) {
        assert(!token_well_signed(s2, t));
    }
}

} // verus!
