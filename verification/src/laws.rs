//! The service's stated properties, proved once over the spec-level
//! models that the handlers' contracts speak of: code uniqueness, the
//! password gate, the code default, redirect correctness, counter
//! accrual, and the unknown-code answers.

use vstd::prelude::*;

use crate::code_policy::generated_code;
use crate::form::resolved_from;
use crate::routes::{
    create_outcome, is_not_found, password_accepts, spec_count_response, spec_redirect_response,
    visit_step, Response,
};
use crate::store::{
    bumped, codes_unique, find_code, has_code, lemma_find_code_from_finds,
    lemma_find_code_from_same_codes, lemma_find_code_spec, UrlStore, UrlV,
};
use crate::text::dec_digits;

verus! {

/// Uniqueness: a well-formed store never holds two records with the
/// same code; since every handler keeps the store well-formed, no two
/// accepted records ever share a code.
pub proof fn lemma_codes_unique(s: UrlStore)
    requires
        s.wf(),
    ensures
        forall|i: int, j: int| 0 <= i < j < s@.len() ==> s@[i].code != s@[j].code,
{
}

/// Password gate: with no configured secret every submission passes;
/// with a secret, exactly the matching password passes, so a missing or
/// different one is refused.
pub proof fn lemma_password_gate(secret: Option<Seq<char>>, password: Option<Seq<char>>)
    ensures
        secret is None ==> password_accepts(secret, password),
        secret matches Some(s) ==> (password_accepts(secret, password) <==> password == Some(s)),
{
}

/// Code default: a create without a requested code (or with an empty
/// one) resolves to a five-character alphanumeric code, and one with a
/// non-empty requested code resolves to exactly that code.
pub proof fn lemma_code_default(requested: Option<Seq<char>>, code: Seq<char>)
    requires
        resolved_from(requested, code),
    ensures
        requested is None ==> generated_code(code),
        match requested {
            Some(rc) => (rc.len() > 0 ==> code == rc) && (rc.len() == 0 ==> generated_code(code)),
            None => generated_code(code),
        },
{
}

/// Redirect correctness: in a table with unique codes, a redirect
/// lookup of the code of record `i` answers 301 with that record's
/// target as `Location`.
pub proof fn lemma_redirect_correct(s: Seq<UrlV>, i: int, r: Response)
    requires
        codes_unique(s),
        0 <= i < s.len(),
        spec_redirect_response(s, s[i].code, r),
    ensures
        r.status == 301,
        r.location matches Some(l) && l@ == s[i].url,
{
    lemma_find_code_pins(s, i);
}

/// Count reporting: in a table with unique codes, a count query of the
/// code of record `i` answers 200 with that record's counter rendered
/// in decimal.
pub proof fn lemma_count_reported(s: Seq<UrlV>, i: int, r: Response)
    requires
        codes_unique(s),
        0 <= i < s.len(),
        spec_count_response(s, s[i].code, r),
    ensures
        r.status == 200,
        r.body matches Some(b) && b@ == dec_digits(s[i].count as nat),
{
    lemma_find_code_pins(s, i);
}

/// In a table with unique codes, the scan for the code of record `i`
/// lands exactly on `i`.
pub proof fn lemma_find_code_pins(s: Seq<UrlV>, i: int)
    requires
        codes_unique(s),
        0 <= i < s.len(),
    ensures
        find_code(s, s[i].code) == Some(i),
{
    lemma_find_code_from_finds(s, s[i].code, 0, i);
    lemma_find_code_spec(s, s[i].code);
    let j = find_code(s, s[i].code)->0;
    if j < i {
        assert(s[j].code != s[i].code);
    } else if j > i {
        assert(s[i].code != s[j].code);
    }
}

/// A create that was accepted appends exactly one record — the given
/// code and target, with a zero counter — and keeps the codes pairwise
/// distinct.
pub proof fn lemma_create_appends(
    pre: UrlStore,
    post: UrlStore,
    created: Response,
    c: Seq<char>,
    t: Seq<char>,
    now: i64,
)
    requires
        pre.wf(),
        create_outcome(pre, post, created, c, t, now),
        created.status == 201,
    ensures
        codes_unique(post@),
        post@.len() == pre@.len() + 1,
        post@[pre@.len() as int].code == c,
        post@[pre@.len() as int].url == t,
        post@[pre@.len() as int].count == 0,
{
    assert(pre.can_insert(c, t));
    let n = pre@.len() as int;
    assert(codes_unique(post@)) by {
        assert forall|i: int, j: int| 0 <= i < j < post@.len() implies post@[i].code
            != post@[j].code by {
            if j == n {
                assert(!(0 <= i < pre@.len() && pre@[i].code == c));
                assert(post@[i] == pre@[i]);
            }
        }
    }
}

/// Round trip of create and lookup: once a create has accepted code `c`
/// for target `t`, a redirect lookup of `c` against the resulting table
/// answers 301 with `Location` exactly `t`.
pub proof fn lemma_create_then_lookup(
    pre: UrlStore,
    post: UrlStore,
    created: Response,
    c: Seq<char>,
    t: Seq<char>,
    now: i64,
    r: Response,
)
    requires
        pre.wf(),
        create_outcome(pre, post, created, c, t, now),
        created.status == 201,
        spec_redirect_response(post@, c, r),
    ensures
        r.status == 301,
        r.location matches Some(l) && l@ == t,
{
    lemma_create_appends(pre, post, created, c, t, now);
    lemma_redirect_correct(post@, pre@.len() as int, r);
}

/// A fresh record's counter reads zero: once a create has accepted code
/// `c`, a count query of `c` against the resulting table answers 200
/// with the single digit `0` as body.
pub proof fn lemma_create_then_count(
    pre: UrlStore,
    post: UrlStore,
    created: Response,
    c: Seq<char>,
    t: Seq<char>,
    now: i64,
    r: Response,
)
    requires
        pre.wf(),
        create_outcome(pre, post, created, c, t, now),
        created.status == 201,
        spec_count_response(post@, c, r),
    ensures
        r.status == 200,
        r.body matches Some(b) && b@ == dec_digits(0),
{
    lemma_create_appends(pre, post, created, c, t, now);
    lemma_count_reported(post@, pre@.len() as int, r);
}

/// The table after `n` sequential redirect lookups of one code.
pub open spec fn visits(s: Seq<UrlV>, code: Seq<char>, n: nat) -> Seq<UrlV>
    decreases n,
{
    if n == 0 {
        s
    } else {
        visit_step(visits(s, code, (n - 1) as nat), code)
    }
}

/// Counter accrual: in a table with unique codes, `n` sequential
/// redirect lookups of the code of record `i` raise that record's
/// counter by exactly `n` and leave every other record untouched.
pub proof fn lemma_counter_accrues(s: Seq<UrlV>, i: int, n: nat)
    requires
        codes_unique(s),
        0 <= i < s.len(),
        s[i].count + n <= u64::MAX,
    ensures
        visits(s, s[i].code, n) =~= s.update(
            i,
            (UrlV { count: (s[i].count + n) as u64, ..s[i] }),
        ),
    decreases n,
{
    let c = s[i].code;
    if n == 0 {
        assert(visits(s, c, 0) == s);
        assert((UrlV { count: s[i].count, ..s[i] }) == s[i]);
        assert(s.update(i, s[i]) =~= s);
    } else {
        lemma_counter_accrues(s, i, (n - 1) as nat);
        let prev = visits(s, c, (n - 1) as nat);
        assert(prev =~= s.update(i, (UrlV { count: (s[i].count + n - 1) as u64, ..s[i] })));
        assert(forall|k: int| 0 <= k < s.len() ==> prev[k].code == s[k].code);
        lemma_find_code_from_same_codes(prev, s, c, 0);
        lemma_find_code_pins(s, i);
        assert(find_code(prev, c) == Some(i));
        assert(prev[i].count < u64::MAX);
        assert(visits(s, c, n) == prev.update(i, bumped(prev[i])));
        assert(prev.update(i, bumped(prev[i])) =~= s.update(
            i,
            (UrlV { count: (s[i].count + n) as u64, ..s[i] }),
        ));
    }
}

/// Counter reporting: after `n` sequential redirect lookups of the code
/// of record `i`, whose counter started at zero, a count query reports
/// exactly `n` in decimal.
pub proof fn lemma_count_after_visits(s: Seq<UrlV>, i: int, n: nat, r: Response)
    requires
        codes_unique(s),
        0 <= i < s.len(),
        s[i].count == 0,
        n <= u64::MAX,
        spec_count_response(visits(s, s[i].code, n), s[i].code, r),
    ensures
        r.status == 200,
        r.body matches Some(b) && b@ == dec_digits(n),
{
    lemma_counter_accrues(s, i, n);
    let post = visits(s, s[i].code, n);
    assert(post[i].code == s[i].code);
    assert(codes_unique(post)) by {
        assert(forall|k: int| 0 <= k < s.len() ==> post[k].code == s[k].code);
    }
    lemma_count_reported(post, i, r);
}

/// Unknown code: a code no record carries answers 404, with an empty
/// body, on both the redirect path and the count path, and the table is
/// untouched.
pub proof fn lemma_unknown_code(s: Seq<UrlV>, code: Seq<char>, redirect: Response, count: Response)
    requires
        !has_code(s, code),
        spec_redirect_response(s, code, redirect),
        spec_count_response(s, code, count),
    ensures
        is_not_found(redirect),
        is_not_found(count),
        visit_step(s, code) == s,
{
    lemma_find_code_spec(s, code);
    match find_code(s, code) {
        Some(j) => {
            assert(0 <= j < s.len() && s[j].code == code);
            assert(has_code(s, code));
        },
        None => {},
    }
}

} // verus!
