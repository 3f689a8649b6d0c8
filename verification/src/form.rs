//! The create request's form body: a `www-form-urlencoded` document with
//! the fields `url` (required), `code` and `password` (both optional).
//!
//! The grammar: pairs are separated by `&`; each pair is split at its
//! first `=` (a pair without `=` has an empty value); keys and values are
//! decoded by mapping `+` to a space and `%XX` (two hex digits) to the
//! byte `XX`, any other `%` being malformed; decoded field values must be
//! valid UTF-8. A repeated field and an absent `url` are malformed;
//! unknown keys are ignored.

use vstd::prelude::*;
use vstd::utf8::{decode_utf8, valid_utf8};

use crate::code_policy::{generate_code, generated_code};
use crate::store::NewUrl;
use crate::text::bytes_to_string;

verus! {

pub const AMP: u8 = 38;

pub const EQUALS: u8 = 61;

pub const PERCENT: u8 = 37;

pub const PLUS: u8 = 43;

pub const SPACE: u8 = 32;

/// The bytes of the key `url`.
pub open spec fn key_url() -> Seq<u8> {
    seq![117u8, 114u8, 108u8]
}

/// The bytes of the key `code`.
pub open spec fn key_code() -> Seq<u8> {
    seq![99u8, 111u8, 100u8, 101u8]
}

/// The bytes of the key `password`.
pub open spec fn key_password() -> Seq<u8> {
    seq![112u8, 97u8, 115u8, 115u8, 119u8, 111u8, 114u8, 100u8]
}

/// An ASCII hex digit.
pub open spec fn is_hex_digit(b: u8) -> bool {
    (48 <= b <= 57) || (65 <= b <= 70) || (97 <= b <= 102)
}

/// The value of an ASCII hex digit.
pub open spec fn hex_val(b: u8) -> u8
    recommends
        is_hex_digit(b),
{
    if 48 <= b <= 57 {
        (b - 48) as u8
    } else if 65 <= b <= 70 {
        (b - 55) as u8
    } else {
        (b - 87) as u8
    }
}

/// The position of the first `b` in `s` at or after `i`.
pub open spec fn first_occ_from(s: Seq<u8>, b: u8, i: int) -> Option<int>
    decreases s.len() - i,
{
    if i < 0 || i >= s.len() {
        None
    } else if s[i] == b {
        Some(i)
    } else {
        first_occ_from(s, b, i + 1)
    }
}

/// The position of the first `b` in `s`.
pub open spec fn first_occ(s: Seq<u8>, b: u8) -> Option<int> {
    first_occ_from(s, b, 0)
}

/// The parts of `s` between occurrences of the separator `sep`; one part
/// more than there are separators, so an empty `s` is one empty part.
pub open spec fn split_parts(s: Seq<u8>, sep: u8) -> Seq<Seq<u8>>
    decreases s.len(),
{
    match first_occ(s, sep) {
        Some(i) => if 0 <= i < s.len() {
            seq![s.take(i)] + split_parts(s.skip(i + 1), sep)
        } else {
            seq![s]
        },
        None => seq![s],
    }
}

/// A pair split at its first `=`: key and value, the value empty when
/// there is no `=`.
pub open spec fn split_pair(p: Seq<u8>) -> (Seq<u8>, Seq<u8>) {
    match first_occ(p, EQUALS) {
        Some(i) => if 0 <= i < p.len() {
            (p.take(i), p.skip(i + 1))
        } else {
            (p, Seq::<u8>::empty())
        },
        None => (p, Seq::<u8>::empty()),
    }
}

/// The `www-form-urlencoded` decoding of one key or value: `+` is a
/// space, `%XX` with two hex digits is the byte `XX`, any other `%` is
/// malformed, every other byte stands for itself.
pub open spec fn decode_component(s: Seq<u8>) -> Option<Seq<u8>>
    decreases s.len(),
{
    if s.len() == 0 {
        Some(Seq::<u8>::empty())
    } else if s[0] == PLUS {
        match decode_component(s.drop_first()) {
            Some(d) => Some(seq![SPACE] + d),
            None => None,
        }
    } else if s[0] == PERCENT {
        if s.len() >= 3 && is_hex_digit(s[1]) && is_hex_digit(s[2]) {
            match decode_component(s.skip(3)) {
                Some(d) => Some(seq![(hex_val(s[1]) * 16 + hex_val(s[2])) as u8] + d),
                None => None,
            }
        } else {
            None
        }
    } else {
        match decode_component(s.drop_first()) {
            Some(d) => Some(seq![s[0]] + d),
            None => None,
        }
    }
}

/// The decoded byte values of the three known fields, each present or
/// absent.
pub ghost struct RawForm {
    pub url: Option<Seq<u8>>,
    pub code: Option<Seq<u8>>,
    pub password: Option<Seq<u8>>,
}

/// The accumulator before any pair was read.
pub open spec fn empty_raw_form() -> RawForm {
    RawForm { url: None, code: None, password: None }
}

/// Reads one pair into the accumulator: a known key stores its decoded
/// value, a repeated known key or an undecodable pair is malformed, an
/// unknown key is ignored.
pub open spec fn step_pair(acc: RawForm, pair: Seq<u8>) -> Option<RawForm> {
    let kv = split_pair(pair);
    match (decode_component(kv.0), decode_component(kv.1)) {
        (Some(k), Some(v)) => if k == key_url() {
            if acc.url is Some {
                None
            } else {
                Some(RawForm { url: Some(v), ..acc })
            }
        } else if k == key_code() {
            if acc.code is Some {
                None
            } else {
                Some(RawForm { code: Some(v), ..acc })
            }
        } else if k == key_password() {
            if acc.password is Some {
                None
            } else {
                Some(RawForm { password: Some(v), ..acc })
            }
        } else {
            Some(acc)
        },
        _ => None,
    }
}

/// Reads the pairs left to right into the accumulator.
pub open spec fn read_pairs(acc: RawForm, pairs: Seq<Seq<u8>>) -> Option<RawForm>
    decreases pairs.len(),
{
    if pairs.len() == 0 {
        Some(acc)
    } else {
        match step_pair(acc, pairs[0]) {
            Some(a) => read_pairs(a, pairs.drop_first()),
            None => None,
        }
    }
}

/// The byte-level reading of a whole form body; `url` must be present.
pub open spec fn parse_form_bytes(body: Seq<u8>) -> Option<RawForm> {
    match read_pairs(empty_raw_form(), split_parts(body, AMP)) {
        Some(acc) => if acc.url is Some {
            Some(acc)
        } else {
            None
        },
        None => None,
    }
}

/// Every present field of the form decodes as UTF-8.
pub open spec fn utf8_ok(m: RawForm) -> bool {
    &&& (m.url matches Some(u) ==> valid_utf8(u))
    &&& (m.code matches Some(c) ==> valid_utf8(c))
    &&& (m.password matches Some(p) ==> valid_utf8(p))
}

/// The body is a well-formed create request.
pub open spec fn form_parses(body: Seq<u8>) -> bool {
    parse_form_bytes(body) matches Some(m) && utf8_ok(m)
}

/// The mathematical value of a parsed create request.
pub ghost struct FormV {
    pub url: Seq<char>,
    pub code: Option<Seq<char>>,
    pub password: Option<Seq<char>>,
}

/// The form a well-formed body parses to.
pub open spec fn spec_form(body: Seq<u8>) -> FormV
    recommends
        form_parses(body),
{
    let m = parse_form_bytes(body)->0;
    FormV {
        url: decode_utf8(m.url->0),
        code: match m.code {
            Some(c) => Some(decode_utf8(c)),
            None => None,
        },
        password: match m.password {
            Some(p) => Some(decode_utf8(p)),
            None => None,
        },
    }
}

/// Scans for the first occurrence of `b` in `s`.
fn find_byte(s: &[u8], b: u8) -> (r: Option<usize>)
    ensures
        match r {
            Some(j) => j < s@.len() && s@[j as int] == b && first_occ(s@, b) == Some(j as int),
            None => first_occ(s@, b) is None,
        },
{
    let n = s.len();
    let mut i: usize = 0;
    while i < n
        invariant
            i <= n,
            n == s@.len(),
            first_occ(s@, b) == first_occ_from(s@, b, i as int),
        decreases n - i,
    {
        if s[i] == b {
            return Some(i);
        }
        i = i + 1;
    }
    None
}

/// The value of an ASCII hex digit, if the byte is one.
fn hex_value(b: u8) -> (r: Option<u8>)
    ensures
        r is Some <==> is_hex_digit(b),
        r matches Some(v) ==> v == hex_val(b) && v < 16,
{
    if 48 <= b && b <= 57 {
        Some(b - 48)
    } else if 65 <= b && b <= 70 {
        Some(b - 55)
    } else if 97 <= b && b <= 102 {
        Some(b - 87)
    } else {
        None
    }
}

/// `r` with `pre` prepended when it holds a value.
spec fn opt_prepend(pre: Seq<u8>, r: Option<Seq<u8>>) -> Option<Seq<u8>> {
    match r {
        Some(d) => Some(pre + d),
        None => None,
    }
}

/// Decodes one key or value, as [`decode_component`] describes.
fn decode_component_exec(s: &[u8]) -> (r: Option<Vec<u8>>)
    ensures
        r is Some <==> decode_component(s@) is Some,
        r matches Some(v) ==> decode_component(s@) == Some(v@),
{
    let n = s.len();
    let mut out: Vec<u8> = Vec::new();
    let mut i: usize = 0;
    proof {
        assert(s@.skip(0) =~= s@);
        match decode_component(s@) {
            Some(d) => {
                assert(Seq::<u8>::empty() + d =~= d);
            },
            None => {},
        }
    }
    while i < n
        invariant
            i <= n,
            n == s@.len(),
            decode_component(s@) == opt_prepend(out@, decode_component(s@.skip(i as int))),
        decreases n - i,
    {
        let ghost k = i as int;
        let ghost pre = out@;
        proof {
            assert(s@.skip(k).len() == n - k);
            assert(s@.skip(k)[0] == s@[k]);
        }
        let c = s[i];
        if c == PLUS {
            out.push(SPACE);
            i = i + 1;
            proof {
                assert(s@.skip(k).drop_first() =~= s@.skip(k + 1));
                match decode_component(s@.skip(k + 1)) {
                    Some(d) => {
                        assert(decode_component(s@.skip(k)) == Some(seq![SPACE] + d));
                        assert(pre + (seq![SPACE] + d) =~= out@ + d);
                    },
                    None => {
                        assert(decode_component(s@.skip(k)) is None);
                    },
                }
            }
        } else if c == PERCENT {
            if n - i < 3 {
                proof {
                    assert(decode_component(s@.skip(k)) is None);
                }
                return None;
            }
            proof {
                assert(s@.skip(k)[1] == s@[k + 1]);
                assert(s@.skip(k)[2] == s@[k + 2]);
            }
            let h1 = match hex_value(s[i + 1]) {
                Some(h) => h,
                None => {
                    proof {
                        assert(decode_component(s@.skip(k)) is None);
                    }
                    return None;
                },
            };
            let h2 = match hex_value(s[i + 2]) {
                Some(h) => h,
                None => {
                    proof {
                        assert(decode_component(s@.skip(k)) is None);
                    }
                    return None;
                },
            };
            let byte: u8 = h1 * 16 + h2;
            out.push(byte);
            i = i + 3;
            proof {
                assert(s@.skip(k).skip(3) =~= s@.skip(k + 3));
                match decode_component(s@.skip(k + 3)) {
                    Some(d) => {
                        assert(decode_component(s@.skip(k)) == Some(seq![byte] + d));
                        assert(pre + (seq![byte] + d) =~= out@ + d);
                    },
                    None => {
                        assert(decode_component(s@.skip(k)) is None);
                    },
                }
            }
        } else {
            out.push(c);
            i = i + 1;
            proof {
                assert(s@.skip(k).drop_first() =~= s@.skip(k + 1));
                match decode_component(s@.skip(k + 1)) {
                    Some(d) => {
                        assert(decode_component(s@.skip(k)) == Some(seq![c] + d));
                        assert(pre + (seq![c] + d) =~= out@ + d);
                    },
                    None => {
                        assert(decode_component(s@.skip(k)) is None);
                    },
                }
            }
        }
    }
    proof {
        assert(s@.skip(n as int) =~= Seq::<u8>::empty());
        assert(decode_component(s@) == opt_prepend(out@, Some(Seq::<u8>::empty())));
        assert(out@ + Seq::<u8>::empty() =~= out@);
    }
    Some(out)
}

/// Whether two byte slices hold the same bytes.
fn bytes_eq(a: &[u8], b: &[u8]) -> (r: bool)
    ensures
        r == (a@ == b@),
{
    let n = a.len();
    if n != b.len() {
        return false;
    }
    let mut i: usize = 0;
    while i < n
        invariant
            i <= n,
            n == a@.len() == b@.len(),
            forall|j: int| 0 <= j < i ==> a@[j] == b@[j],
        decreases n - i,
    {
        if a[i] != b[i] {
            return false;
        }
        i = i + 1;
    }
    proof {
        assert(a@ =~= b@);
    }
    true
}

/// The bytes of the key `url`, as a vector.
fn key_url_bytes() -> (v: Vec<u8>)
    ensures
        v@ == key_url(),
{
    let mut v: Vec<u8> = Vec::new();
    v.push(117);
    v.push(114);
    v.push(108);
    proof {
        assert(v@ =~= key_url());
    }
    v
}

/// The bytes of the key `code`, as a vector.
fn key_code_bytes() -> (v: Vec<u8>)
    ensures
        v@ == key_code(),
{
    let mut v: Vec<u8> = Vec::new();
    v.push(99);
    v.push(111);
    v.push(100);
    v.push(101);
    proof {
        assert(v@ =~= key_code());
    }
    v
}

/// The bytes of the key `password`, as a vector.
fn key_password_bytes() -> (v: Vec<u8>)
    ensures
        v@ == key_password(),
{
    let mut v: Vec<u8> = Vec::new();
    v.push(112);
    v.push(97);
    v.push(115);
    v.push(115);
    v.push(119);
    v.push(111);
    v.push(114);
    v.push(100);
    proof {
        assert(v@ =~= key_password());
    }
    v
}

/// A create request: target URL, optional requested code, optional
/// password.
#[derive(Debug)]
pub struct CreateForm {
    pub url: String,
    pub code: Option<String>,
    pub password: Option<String>,
}

impl View for CreateForm {
    type V = FormV;

    open spec fn view(&self) -> FormV {
        FormV {
            url: self.url@,
            code: match self.code {
                Some(c) => Some(c@),
                None => None,
            },
            password: match self.password {
                Some(p) => Some(p@),
                None => None,
            },
        }
    }
}

/// How a resolved code relates to the one the form requested: a
/// non-empty requested code is honored unchanged, anything else is
/// replaced by a freshly generated code.
pub open spec fn resolved_from(requested: Option<Seq<char>>, code: Seq<char>) -> bool {
    match requested {
        Some(rc) => if rc.len() > 0 {
            code == rc
        } else {
            generated_code(code)
        },
        None => generated_code(code),
    }
}

impl CreateForm {
    /// Resolves the code: keeps a non-empty requested code, otherwise
    /// draws a generated one.
    pub fn ensure_code(self) -> (r: CreateForm)
        ensures
            r.url == self.url,
            r.password == self.password,
            r.code matches Some(c) && resolved_from(self@.code, c@),
    {
        let CreateForm { url, code, password } = self;
        let code = match code {
            Some(c) => if !c.as_str().is_empty() {
                Some(c)
            } else {
                Some(generate_code())
            },
            None => Some(generate_code()),
        };
        CreateForm { url, code, password }
    }

    /// The record this form asks the store to insert; the code must have
    /// been resolved first.
    pub fn as_insertable(&self) -> (r: NewUrl<'_>)
        requires
            self.code is Some,
        ensures
            r.url@ == self@.url,
            r.code@ == self@.code->0,
    {
        NewUrl { url: self.url.as_str(), code: self.code.as_ref().unwrap().as_str() }
    }
}

/// The byte values of the three accumulators while pairs are read.
spec fn raw_of(u: Option<Vec<u8>>, c: Option<Vec<u8>>, p: Option<Vec<u8>>) -> RawForm {
    RawForm {
        url: match u {
            Some(v) => Some(v@),
            None => None,
        },
        code: match c {
            Some(v) => Some(v@),
            None => None,
        },
        password: match p {
            Some(v) => Some(v@),
            None => None,
        },
    }
}

/// Parses a form body, as [`form_parses`] and [`spec_form`] describe;
/// nothing on a malformed body.
pub fn parse_create_form(body: &[u8]) -> (r: Option<CreateForm>)
    ensures
        r is Some <==> form_parses(body@),
        r matches Some(f) ==> f@ == spec_form(body@),
{
    let ghost whole = read_pairs(empty_raw_form(), split_parts(body@, AMP));
    let key_url_v = key_url_bytes();
    let key_code_v = key_code_bytes();
    let key_password_v = key_password_bytes();
    let mut url_v: Option<Vec<u8>> = None;
    let mut code_v: Option<Vec<u8>> = None;
    let mut pw_v: Option<Vec<u8>> = None;
    let mut rest: &[u8] = body;
    let mut more = true;
    while more
        invariant
            whole == read_pairs(empty_raw_form(), split_parts(body@, AMP)),
            more ==> read_pairs(raw_of(url_v, code_v, pw_v), split_parts(rest@, AMP)) == whole,
            !more ==> Some(raw_of(url_v, code_v, pw_v)) == whole,
            key_url_v@ == key_url(),
            key_code_v@ == key_code(),
            key_password_v@ == key_password(),
        decreases rest@.len() as int + (if more {
            1int
        } else {
            0int
        }),
    {
        let ghost pre_rest = rest@;
        let ghost pre_acc = raw_of(url_v, code_v, pw_v);
        let ghost pairs = split_parts(pre_rest, AMP);
        let mut is_last = false;
        let seg: &[u8] = match find_byte(rest, AMP) {
            Some(e) => {
                let rl = rest.len();
                let s2 = &rest[0..e];
                rest = &rest[e + 1..rl];
                proof {
                    assert(s2@ =~= pre_rest.take(e as int));
                    assert(rest@ =~= pre_rest.skip(e as int + 1));
                    assert(pairs == seq![pre_rest.take(e as int)] + split_parts(
                        pre_rest.skip(e as int + 1),
                        AMP,
                    ));
                    assert(pairs[0] == s2@);
                    assert(pairs.drop_first() =~= split_parts(rest@, AMP));
                }
                s2
            },
            None => {
                is_last = true;
                proof {
                    assert(pairs == seq![pre_rest]);
                    assert(pairs[0] == pre_rest);
                    assert(pairs.drop_first() =~= Seq::<Seq<u8>>::empty());
                }
                rest
            },
        };
        proof {
            assert(pairs.len() > 0);
            assert(pairs[0] == seg@);
            assert(read_pairs(pre_acc, pairs) == match step_pair(pre_acc, pairs[0]) {
                Some(a) => read_pairs(a, pairs.drop_first()),
                None => None::<RawForm>,
            });
        }
        let ghost kv = split_pair(seg@);
        let (kslice, vslice): (&[u8], &[u8]) = match find_byte(seg, EQUALS) {
            Some(j) => {
                let sl = seg.len();
                let ks = &seg[0..j];
                let vs = &seg[j + 1..sl];
                proof {
                    assert(ks@ =~= seg@.take(j as int));
                    assert(vs@ =~= seg@.skip(j as int + 1));
                    assert(kv == (seg@.take(j as int), seg@.skip(j as int + 1)));
                }
                (ks, vs)
            },
            None => {
                let vs = &seg[0..0];
                proof {
                    assert(vs@ =~= Seq::<u8>::empty());
                    assert(kv == (seg@, Seq::<u8>::empty()));
                }
                (seg, vs)
            },
        };
        proof {
            assert(kslice@ == kv.0);
            assert(vslice@ == kv.1);
        }
        let k = match decode_component_exec(kslice) {
            Some(k) => k,
            None => {
                proof {
                    assert(step_pair(pre_acc, seg@) is None);
                    assert(whole is None);
                }
                return None;
            },
        };
        let v = match decode_component_exec(vslice) {
            Some(v) => v,
            None => {
                proof {
                    assert(step_pair(pre_acc, seg@) is None);
                    assert(whole is None);
                }
                return None;
            },
        };
        let ghost vv = v@;
        if bytes_eq(k.as_slice(), key_url_v.as_slice()) {
            if url_v.is_some() {
                proof {
                    assert(step_pair(pre_acc, seg@) is None);
                    assert(whole is None);
                }
                return None;
            }
            url_v = Some(v);
            proof {
                assert(step_pair(pre_acc, seg@) == Some(
                    (RawForm { url: Some(vv), ..pre_acc }),
                ));
                assert(raw_of(url_v, code_v, pw_v) == (RawForm { url: Some(vv), ..pre_acc }));
            }
        } else if bytes_eq(k.as_slice(), key_code_v.as_slice()) {
            if code_v.is_some() {
                proof {
                    assert(step_pair(pre_acc, seg@) is None);
                    assert(whole is None);
                }
                return None;
            }
            code_v = Some(v);
            proof {
                assert(step_pair(pre_acc, seg@) == Some(
                    (RawForm { code: Some(vv), ..pre_acc }),
                ));
                assert(raw_of(url_v, code_v, pw_v) == (RawForm { code: Some(vv), ..pre_acc }));
            }
        } else if bytes_eq(k.as_slice(), key_password_v.as_slice()) {
            if pw_v.is_some() {
                proof {
                    assert(step_pair(pre_acc, seg@) is None);
                    assert(whole is None);
                }
                return None;
            }
            pw_v = Some(v);
            proof {
                assert(step_pair(pre_acc, seg@) == Some(
                    (RawForm { password: Some(vv), ..pre_acc }),
                ));
                assert(raw_of(url_v, code_v, pw_v) == (RawForm {
                    password: Some(vv),
                    ..pre_acc
                }));
            }
        } else {
            proof {
                assert(step_pair(pre_acc, seg@) == Some(pre_acc));
            }
        }
        proof {
            assert(read_pairs(raw_of(url_v, code_v, pw_v), pairs.drop_first()) == whole);
        }
        if is_last {
            more = false;
        }
    }
    let ghost acc = raw_of(url_v, code_v, pw_v);
    proof {
        assert(whole == Some(acc));
    }
    let url_bytes = match url_v {
        Some(u) => u,
        None => {
            proof {
                assert(parse_form_bytes(body@) is None);
            }
            return None;
        },
    };
    let ghost m = parse_form_bytes(body@)->0;
    proof {
        assert(parse_form_bytes(body@) == Some(acc));
        assert(m == acc);
    }
    let url_s = match bytes_to_string(url_bytes) {
        Some(s) => s,
        None => {
            proof {
                assert(!utf8_ok(m));
            }
            return None;
        },
    };
    let code_s: Option<String> = match code_v {
        Some(cb) => match bytes_to_string(cb) {
            Some(s) => Some(s),
            None => {
                proof {
                    assert(!utf8_ok(m));
                }
                return None;
            },
        },
        None => None,
    };
    let pw_s: Option<String> = match pw_v {
        Some(pb) => match bytes_to_string(pb) {
            Some(s) => Some(s),
            None => {
                proof {
                    assert(!utf8_ok(m));
                }
                return None;
            },
        },
        None => None,
    };
    let f = CreateForm { url: url_s, code: code_s, password: pw_s };
    proof {
        assert(form_parses(body@));
        assert(f@ == spec_form(body@));
    }
    Some(f)
}

} // verus!
