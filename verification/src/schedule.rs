use vstd::prelude::*;

use crate::errors::TaskQueueError;
use vstd::string::StrSliceExecFns;
use vstd::string::StringExecFns;

verus! {

/// Whitespace that separates the fields of a cron expression.
pub open spec fn is_space_char(c: char) -> bool {
    c == ' ' || c == '\t' || c == '\n' || c == '\r'
}

fn is_space(c: char) -> (b: bool)
    ensures
        b == is_space_char(c),
{
    c == ' ' || c == '\t' || c == '\n' || c == '\r'
}

/// Number of fields in the suffix `s`, given whether the character just
/// before it belonged to a field.
pub open spec fn count_fields_rec(s: Seq<char>, in_field: bool) -> nat
    decreases s.len(),
{
    if s.len() == 0 {
        0
    } else if is_space_char(s[0]) {
        count_fields_rec(s.drop_first(), false)
    } else if in_field {
        count_fields_rec(s.drop_first(), true)
    } else {
        1 + count_fields_rec(s.drop_first(), true)
    }
}

/// The number of whitespace-separated fields of `s`.
pub open spec fn spec_count_fields(s: Seq<char>) -> nat {
    count_fields_rec(s, false)
}

/// Counts the whitespace-separated fields of a cron expression.
pub fn count_fields(s: &str) -> (n: usize)
    ensures
        n as nat == spec_count_fields(s@),
{
    let len = s.unicode_len();
    let mut i: usize = 0;
    let mut count: usize = 0;
    let mut in_field = false;
    proof {
        assert(s@.skip(0) =~= s@);
    }
    while i < len
        invariant
            0 <= i <= len,
            len == s@.len(),
            count <= i,
            spec_count_fields(s@) == count + count_fields_rec(s@.skip(i as int), in_field),
        decreases len - i,
    {
        let c = s.get_char(i);
        proof {
            assert(s@.skip(i as int)[0] == s@[i as int]);
            assert(s@.skip(i as int).drop_first() =~= s@.skip(i as int + 1));
        }
        if is_space(c) {
            in_field = false;
        } else if !in_field {
            count = count + 1;
            in_field = true;
        }
        i = i + 1;
    }
    proof {
        assert(s@.skip(len as int) =~= Seq::<char>::empty());
    }
    count
}

/// The six-field form of a cron expression: a five-field expression gains a
/// zero seconds field; anything else is left as it is.
pub open spec fn spec_normalize_cron(s: Seq<char>) -> Seq<char> {
    if spec_count_fields(s) == 5 {
        seq!['0', ' '] + s
    } else {
        s
    }
}

/// Normalizes a cron expression to its six-field form.
pub fn normalize_cron_expr(expr: &str) -> (r: String)
    ensures
        r@ == spec_normalize_cron(expr@),
{
    if count_fields(expr) == 5 {
        let mut s = String::from_str("0 ");
        s.append(expr);
        proof {
            reveal_strlit("0 ");
            assert(s@ =~= seq!['0', ' '] + expr@);
        }
        s
    } else {
        expr.to_owned()
    }
}

/// Whether the cron parser accepts the expression `s`.
pub uninterp spec fn cron_parses(s: Seq<char>) -> bool;

/// The next instant matching the cron expression `s` strictly after the
/// instant `reference`, if one exists; meaningful only when `cron_parses(s)`.
pub uninterp spec fn cron_next_after(s: Seq<char>, reference: int) -> Option<int>;

/// Relies on `cron::Schedule::from_str` to parse a cron expression, and on
/// `cron::Schedule::after` — seeded with `chrono::DateTime::from_timestamp` —
/// whose iterator yields only instants strictly after the given one.
#[verifier::external_body]
fn cron_next_occurrence(expr: &str, reference: i64) -> (r: Result<
    Option<i64>,
    TaskQueueError,
>)
    requires
        0 <= reference <= crate::MAX_CRON_REFERENCE,
    ensures
        r is Ok <==> cron_parses(expr@),
        r matches Ok(next) ==> match next {
            Some(t) => cron_next_after(expr@, reference as int) == Some(t as int) && reference
                < t,
            None => cron_next_after(expr@, reference as int) is None,
        },
{
    match <cron::Schedule as core::str::FromStr>::from_str(expr) {
        Ok(schedule) => {
            let reference_dt = chrono::DateTime::<chrono::Utc>::from_timestamp(reference, 0)
                .unwrap();
            let next = match schedule.after(&reference_dt).next() {
                Some(dt) => Some(dt.timestamp()),
                None => None,
            };
            Ok(next)
        },
        Err(e) => Err(TaskQueueError::CronParse(format!("{}", e))),
    }
}

/// Relies on `chrono::Utc::now` for the current instant; nothing is assumed
/// about the clock's value.
#[verifier::external_body]
pub(crate) fn now_unix() -> i64 {
    chrono::Utc::now().timestamp()
}

/// Whether the resolver accepts `s`: five or six whitespace-separated fields
/// whose six-field normalization parses as a cron expression.
pub open spec fn cron_accepted(s: Seq<char>) -> bool {
    (spec_count_fields(s) == 5 || spec_count_fields(s) == 6) && cron_parses(
        spec_normalize_cron(s),
    )
}

/// The resolver's outcome on `(s, reference)`: the next firing instant
/// strictly after `reference` when `s` is accepted and such an instant
/// exists, and nothing otherwise.
pub open spec fn spec_next_firing(s: Seq<char>, reference: int) -> Option<int> {
    if cron_accepted(s) {
        cron_next_after(spec_normalize_cron(s), reference)
    } else {
        Option::None
    }
}

/// Whether the resolver accepts the expression.
pub fn cron_expr_accepted(expr: &str) -> (b: bool)
    ensures
        b == cron_accepted(expr@),
{
    let n = count_fields(expr);
    if n != 5 && n != 6 {
        return false;
    }
    let normalized = normalize_cron_expr(expr);
    match cron_next_occurrence(normalized.as_str(), 0) {
        Ok(_) => true,
        Err(_) => false,
    }
}

/// Resolves a cron expression to the next firing instant strictly after
/// `reference`, in UTC. Five-field expressions are first normalized to six
/// fields by prepending a zero seconds field; a field count other than five
/// or six, an unparseable expression, or a schedule with no upcoming instant
/// is reported as `CronParse`.
pub fn next_firing_after(expr: &str, reference: i64) -> (r: Result<i64, TaskQueueError>)
    requires
        0 <= reference <= crate::MAX_CRON_REFERENCE,
    ensures
        r matches Ok(t) ==> spec_next_firing(expr@, reference as int) == Some(t as int) && t
            > reference,
        r is Err <==> spec_next_firing(expr@, reference as int) is None,
{
    let n = count_fields(expr);
    if n != 5 && n != 6 {
        return Err(
            TaskQueueError::CronParse(
                String::from_str("cron expression must have five or six fields"),
            ),
        );
    }
    let normalized = normalize_cron_expr(expr);
    match cron_next_occurrence(normalized.as_str(), reference) {
        Ok(Some(t)) => Ok(t),
        Ok(None) => Err(TaskQueueError::CronParse(String::from_str("no upcoming firing time"))),
        Err(e) => Err(e),
    }
}

proof fn lemma_count_fields_prepend_zero(s: Seq<char>)
    ensures
        spec_count_fields(seq!['0', ' '] + s) == 1 + spec_count_fields(s),
{
    let t = seq!['0', ' '] + s;
    let u = seq![' '] + s;
    assert(t[0] == '0' && !is_space_char('0'));
    assert(t.drop_first() =~= u);
    assert(count_fields_rec(t, false) == 1 + count_fields_rec(u, true));
    assert(u[0] == ' ');
    assert(u.drop_first() =~= s);
    assert(count_fields_rec(u, true) == count_fields_rec(s, false));
}

/// A five-field cron expression resolves exactly as its six-field
/// normalization, the same expression with a zero seconds field prepended.
pub proof fn lemma_five_field_equals_normalized(s: Seq<char>, reference: int)
    requires
        spec_count_fields(s) == 5,
    ensures
        cron_accepted(seq!['0', ' '] + s) == cron_accepted(s),
        spec_next_firing(seq!['0', ' '] + s, reference) == spec_next_firing(s, reference),
{
    lemma_count_fields_prepend_zero(s);
    assert(spec_normalize_cron(seq!['0', ' '] + s) == seq!['0', ' '] + s);
    assert(spec_normalize_cron(s) == seq!['0', ' '] + s);
}

/// The resolver is deterministic: for a fixed expression and reference
/// instant there is at most one firing it can yield. Together with the
/// contract of [`next_firing_after`], which pins the returned instant to
/// `spec_next_firing`, any two calls on the same input agree.
pub proof fn lemma_resolver_deterministic(s: Seq<char>, reference: int, t1: int, t2: int)
    requires
        spec_next_firing(s, reference) == Some(t1),
        spec_next_firing(s, reference) == Some(t2),
    ensures
        t1 == t2,
{
}

} // verus!
