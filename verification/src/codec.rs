use vstd::prelude::*;

use crate::errors::TaskQueueError;
use crate::task::BaseTask;
use crate::task::TaskView;
use crate::task::args_view;
use vstd::string::StrSliceExecFns;
use vstd::string::StringExecFns;

verus! {

// ---------------------------------------------------------------------------
// String escaping
// ---------------------------------------------------------------------------
/// The wire form of one character inside a JSON string: quotes and
/// backslashes gain a backslash, everything else is carried verbatim.
pub open spec fn escape_char(c: char) -> Seq<char> {
    if c == '"' || c == '\\' {
        seq!['\\', c]
    } else {
        seq![c]
    }
}

/// The wire form of a whole string body.
pub open spec fn escape_seq(s: Seq<char>) -> Seq<char>
    decreases s.len(),
{
    if s.len() == 0 {
        Seq::<char>::empty()
    } else {
        escape_char(s[0]) + escape_seq(s.drop_first())
    }
}

proof fn lemma_escape_snoc(s: Seq<char>, c: char)
    ensures
        escape_seq(s.push(c)) == escape_seq(s) + escape_char(c),
    decreases s.len(),
{
    if s.len() == 0 {
        assert(s.push(c)[0] == c);
        assert(s.push(c).drop_first() =~= Seq::<char>::empty());
        assert(escape_seq(s.push(c)) == escape_char(c) + escape_seq(Seq::<char>::empty()));
        assert(escape_seq(s.push(c)) =~= escape_char(c));
        assert(escape_seq(s) + escape_char(c) =~= escape_char(c));
    } else {
        assert(s.push(c).drop_first() =~= s.drop_first().push(c));
        lemma_escape_snoc(s.drop_first(), c);
        assert(escape_seq(s.push(c)) =~= escape_seq(s) + escape_char(c));
    }
}

// ---------------------------------------------------------------------------
// Decimal rendering of the firing time
// ---------------------------------------------------------------------------
pub open spec fn digit_char(d: nat) -> char {
    if d == 0 {
        '0'
    } else if d == 1 {
        '1'
    } else if d == 2 {
        '2'
    } else if d == 3 {
        '3'
    } else if d == 4 {
        '4'
    } else if d == 5 {
        '5'
    } else if d == 6 {
        '6'
    } else if d == 7 {
        '7'
    } else if d == 8 {
        '8'
    } else {
        '9'
    }
}

pub open spec fn is_digit_char(c: char) -> bool {
    c == '0' || c == '1' || c == '2' || c == '3' || c == '4' || c == '5' || c == '6' || c == '7'
        || c == '8' || c == '9'
}

pub open spec fn digit_val(c: char) -> nat {
    if c == '0' {
        0
    } else if c == '1' {
        1
    } else if c == '2' {
        2
    } else if c == '3' {
        3
    } else if c == '4' {
        4
    } else if c == '5' {
        5
    } else if c == '6' {
        6
    } else if c == '7' {
        7
    } else if c == '8' {
        8
    } else {
        9
    }
}

/// The decimal digits of `n`, most significant first.
pub open spec fn dec_digits(n: nat) -> Seq<char>
    decreases n,
{
    if n < 10 {
        seq![digit_char(n)]
    } else {
        dec_digits(n / 10) + seq![digit_char(n % 10)]
    }
}

/// The number denoted by a sequence of decimal digits.
pub open spec fn digits_val(s: Seq<char>) -> nat
    decreases s.len(),
{
    if s.len() == 0 {
        0
    } else {
        digits_val(s.drop_last()) * 10 + digit_val(s.last())
    }
}

// ---------------------------------------------------------------------------
// The serialized form of a task
// ---------------------------------------------------------------------------
/// The wire form of one argument pair: `"key":"value"`, both escaped.
pub open spec fn ser_pair(p: (Seq<char>, Seq<char>)) -> Seq<char> {
    seq!['"'] + escape_seq(p.0) + seq!['"', ':', '"'] + escape_seq(p.1) + seq!['"']
}

/// The wire form of a list of argument pairs, comma-separated.
pub open spec fn ser_pairs(ps: Seq<(Seq<char>, Seq<char>)>) -> Seq<char>
    decreases ps.len(),
{
    if ps.len() == 0 {
        Seq::<char>::empty()
    } else if ps.len() == 1 {
        ser_pair(ps[0])
    } else {
        ser_pair(ps[0]) + seq![','] + ser_pairs(ps.drop_first())
    }
}

/// The wire form of the optional argument payload: `null`, or an object of
/// the pairs in order.
pub open spec fn ser_args(a: Option<Seq<(Seq<char>, Seq<char>)>>) -> Seq<char> {
    match a {
        Option::None => ("null")@,
        Option::Some(ps) => seq!['{'] + ser_pairs(ps) + seq!['}'],
    }
}

/// The serialized JSON form of a task: an object with the nine fields in a
/// fixed order, strings escaped, the firing time in decimal.
pub open spec fn ser_task(v: TaskView) -> Seq<char> {
    ("{\"id\":\"")@ + escape_seq(v.id) + seq!['"'] + (",\"name\":\"")@ + escape_seq(v.name)
        + seq!['"'] + (",\"description\":\"")@ + escape_seq(v.description) + seq!['"'] + (
    ",\"category\":\"")@ + escape_seq(v.category) + seq!['"'] + (",\"priority\":\"")@
        + escape_seq(v.priority) + seq!['"'] + (",\"task\":\"")@ + escape_seq(v.task) + seq!['"']
        + (",\"scheduled_at\":")@ + dec_digits(v.scheduled_at as nat) + (
    ",\"cron_scheduled_at\":\"")@ + escape_seq(v.cron_scheduled_at) + seq!['"'] + (",\"args\":")@
        + ser_args(v.args) + seq!['}']
}

// ---------------------------------------------------------------------------
// The verified serializer
// ---------------------------------------------------------------------------
/// Relies on `String::push` appending exactly one character.
#[verifier::external_body]
fn push_char(s: &mut String, c: char)
    ensures
        final(s)@ == old(s)@.push(c),
{
    s.push(c);
}

pub(crate) fn push_one(out: &mut String, c: char)
    ensures
        final(out)@ == old(out)@ + seq![c],
{
    push_char(out, c);
    proof {
        assert(out@ =~= old(out)@ + seq![c]);
    }
}

pub(crate) fn append_escaped(out: &mut String, s: &str)
    ensures
        final(out)@ == old(out)@ + escape_seq(s@),
{
    let len = s.unicode_len();
    let mut k: usize = 0;
    proof {
        assert(s@.subrange(0, 0) =~= Seq::<char>::empty());
        assert(out@ =~= old(out)@ + escape_seq(s@.subrange(0, 0)));
    }
    while k < len
        invariant
            k <= len,
            len == s@.len(),
            out@ == old(out)@ + escape_seq(s@.subrange(0, k as int)),
        decreases len - k,
    {
        let c = s.get_char(k);
        if c == '"' || c == '\\' {
            push_one(out, '\\');
            push_one(out, c);
        } else {
            push_one(out, c);
        }
        proof {
            assert(s@.subrange(0, k as int + 1) =~= s@.subrange(0, k as int).push(s@[k as int]));
            lemma_escape_snoc(s@.subrange(0, k as int), s@[k as int]);
            assert(out@ =~= old(out)@ + escape_seq(s@.subrange(0, k as int + 1)));
        }
        k = k + 1;
    }
    proof {
        assert(s@.subrange(0, len as int) =~= s@);
    }
}

fn digit_to_char(d: u64) -> (c: char)
    requires
        d < 10,
    ensures
        c == digit_char(d as nat),
{
    if d == 0 {
        '0'
    } else if d == 1 {
        '1'
    } else if d == 2 {
        '2'
    } else if d == 3 {
        '3'
    } else if d == 4 {
        '4'
    } else if d == 5 {
        '5'
    } else if d == 6 {
        '6'
    } else if d == 7 {
        '7'
    } else if d == 8 {
        '8'
    } else {
        '9'
    }
}

fn append_u64(out: &mut String, n: u64)
    ensures
        final(out)@ == old(out)@ + dec_digits(n as nat),
    decreases n,
{
    if n < 10 {
        push_one(out, digit_to_char(n));
        proof {
            assert(out@ =~= old(out)@ + dec_digits(n as nat));
        }
    } else {
        append_u64(out, n / 10);
        push_one(out, digit_to_char(n % 10));
        proof {
            assert((n as nat) / 10 == (n / 10) as nat);
            assert((n as nat) % 10 == (n % 10) as nat);
            assert(out@ =~= old(out)@ + dec_digits(n as nat));
        }
    }
}

proof fn lemma_ser_pairs_snoc(ps: Seq<(Seq<char>, Seq<char>)>)
    requires
        ps.len() >= 1,
    ensures
        ser_pairs(ps) == ser_pairs(ps.drop_last()) + (if ps.len() == 1 {
            Seq::<char>::empty()
        } else {
            seq![',']
        }) + ser_pair(ps.last()),
    decreases ps.len(),
{
    if ps.len() == 1 {
        assert(ps.drop_last() =~= Seq::<(Seq<char>, Seq<char>)>::empty());
        assert(ps[0] == ps.last());
        assert(ser_pairs(ps) =~= ser_pairs(ps.drop_last()) + Seq::<char>::empty() + ser_pair(
            ps.last(),
        ));
    } else if ps.len() == 2 {
        let tail = ps.drop_first();
        assert(tail.len() == 1);
        assert(ser_pairs(tail) == ser_pair(tail[0]));
        assert(tail[0] == ps.last());
        assert(ps.drop_last().len() == 1);
        assert(ps.drop_last()[0] == ps[0]);
        assert(ser_pairs(ps.drop_last()) == ser_pair(ps[0]));
        assert(ser_pairs(ps) =~= ser_pairs(ps.drop_last()) + seq![','] + ser_pair(ps.last()));
    } else {
        let tail = ps.drop_first();
        lemma_ser_pairs_snoc(tail);
        assert(tail.drop_last() =~= ps.drop_last().drop_first());
        assert(tail.last() == ps.last());
        assert(ps.drop_last().len() >= 2);
        assert(ps.drop_last()[0] == ps[0]);
        assert(ser_pairs(ps.drop_last()) == ser_pair(ps[0]) + seq![','] + ser_pairs(
            ps.drop_last().drop_first(),
        ));
        assert(tail.len() >= 2 ==> ser_pairs(tail) == ser_pairs(tail.drop_last()) + seq![',']
            + ser_pair(tail.last()));
        assert(ser_pairs(ps) =~= ser_pairs(ps.drop_last()) + seq![','] + ser_pair(ps.last()));
    }
}

fn serialize_args_into(out: &mut String, args: &Option<Vec<(String, String)>>)
    ensures
        final(out)@ == old(out)@ + ser_args(args_view(*args)),
{
    match args {
        Option::None => {
            out.append("null");
        },
        Option::Some(v) => {
            let ghost ps = Seq::new(v@.len(), |i: int| (v@[i].0@, v@[i].1@));
            proof {
                assert(args_view(*args) == Option::Some(ps));
            }
            push_one(out, '{');
            let mut k: usize = 0;
            proof {
                assert(ps.subrange(0, 0) =~= Seq::<(Seq<char>, Seq<char>)>::empty());
                assert(out@ =~= old(out)@ + seq!['{'] + ser_pairs(ps.subrange(0, 0)));
            }
            while k < v.len()
                invariant
                    k <= v.len(),
                    ps.len() == v@.len(),
                    forall|i: int| 0 <= i < ps.len() ==> ps[i] == (v@[i].0@, v@[i].1@),
                    out@ == old(out)@ + seq!['{'] + ser_pairs(ps.subrange(0, k as int)),
                decreases v.len() - k,
            {
                if k > 0 {
                    push_one(out, ',');
                }
                push_one(out, '"');
                append_escaped(out, v[k].0.as_str());
                out.append("\":\"");
                append_escaped(out, v[k].1.as_str());
                push_one(out, '"');
                proof {
                    reveal_strlit("\":\"");
                    assert(("\":\"")@ =~= seq!['"', ':', '"']);
                    assert(ps.subrange(0, k as int + 1).drop_last() =~= ps.subrange(0, k as int));
                    assert(ps.subrange(0, k as int + 1).last() == ps[k as int]);
                    lemma_ser_pairs_snoc(ps.subrange(0, k as int + 1));
                    assert(out@ =~= old(out)@ + seq!['{'] + ser_pairs(ps.subrange(0, k as int + 1)));
                }
                k = k + 1;
            }
            push_one(out, '}');
            proof {
                assert(ps.subrange(0, v@.len() as int) =~= ps);
                assert(out@ =~= old(out)@ + ser_args(args_view(*args)));
            }
        },
    }
}

/// Serializes a task to its JSON wire form, exactly [`ser_task`] of its
/// value. Serialization never fails.
pub fn serialize_task(t: &BaseTask) -> (r: String)
    ensures
        r@ == ser_task(t@),
{
    let mut out = String::from_str("{\"id\":\"");
    append_escaped(&mut out, t.id.as_str());
    push_one(&mut out, '"');
    out.append(",\"name\":\"");
    append_escaped(&mut out, t.name.as_str());
    push_one(&mut out, '"');
    out.append(",\"description\":\"");
    append_escaped(&mut out, t.description.as_str());
    push_one(&mut out, '"');
    out.append(",\"category\":\"");
    append_escaped(&mut out, t.category.as_str());
    push_one(&mut out, '"');
    out.append(",\"priority\":\"");
    append_escaped(&mut out, t.priority.as_str());
    push_one(&mut out, '"');
    out.append(",\"task\":\"");
    append_escaped(&mut out, t.task.as_str());
    push_one(&mut out, '"');
    out.append(",\"scheduled_at\":");
    append_u64(&mut out, t.scheduled_at);
    out.append(",\"cron_scheduled_at\":\"");
    append_escaped(&mut out, t.cron_scheduled_at.as_str());
    push_one(&mut out, '"');
    out.append(",\"args\":");
    serialize_args_into(&mut out, &t.args);
    push_one(&mut out, '}');
    out
}

// ---------------------------------------------------------------------------
// The reference parser
// ---------------------------------------------------------------------------
/// Consumes the exact literal `l` at position `i`.
pub open spec fn parse_lit(s: Seq<char>, i: int, l: Seq<char>) -> Option<int> {
    if 0 <= i && i + l.len() <= s.len() && s.subrange(i, i + l.len()) == l {
        Option::Some(i + l.len())
    } else {
        Option::None
    }
}

/// Consumes an escaped string body up to and including its closing quote,
/// yielding the unescaped content. Only `\"` and `\\` escapes are accepted.
pub open spec fn parse_string(s: Seq<char>, i: int) -> Option<(Seq<char>, int)>
    decreases s.len() - i,
{
    if i < 0 || i >= s.len() {
        Option::None
    } else if s[i] == '"' {
        Option::Some((Seq::<char>::empty(), i + 1))
    } else if s[i] == '\\' {
        if i + 1 < s.len() && (s[i + 1] == '"' || s[i + 1] == '\\') {
            match parse_string(s, i + 2) {
                Option::Some(r) => Option::Some((seq![s[i + 1]] + r.0, r.1)),
                Option::None => Option::None,
            }
        } else {
            Option::None
        }
    } else {
        match parse_string(s, i + 1) {
            Option::Some(r) => Option::Some((seq![s[i]] + r.0, r.1)),
            Option::None => Option::None,
        }
    }
}

/// The position just past the run of decimal digits starting at `i`.
pub open spec fn digit_run_end(s: Seq<char>, i: int) -> int
    decreases s.len() - i,
{
    if 0 <= i && i < s.len() && is_digit_char(s[i]) {
        digit_run_end(s, i + 1)
    } else {
        i
    }
}

/// Consumes a non-empty run of decimal digits whose value fits in `u64`.
pub open spec fn parse_u64(s: Seq<char>, i: int) -> Option<(u64, int)> {
    let j = digit_run_end(s, i);
    if i < j && digits_val(s.subrange(i, j)) <= u64::MAX {
        Option::Some((digits_val(s.subrange(i, j)) as u64, j))
    } else {
        Option::None
    }
}

/// Consumes one `"key":"value"` pair.
pub open spec fn parse_pair(s: Seq<char>, i: int) -> Option<((Seq<char>, Seq<char>), int)> {
    if 0 <= i && i < s.len() && s[i] == '"' {
        match parse_string(s, i + 1) {
            Option::Some((k, j)) => match parse_lit(s, j, seq![':', '"']) {
                Option::Some(j2) => match parse_string(s, j2) {
                    Option::Some((v, j3)) => Option::Some(((k, v), j3)),
                    Option::None => Option::None,
                },
                Option::None => Option::None,
            },
            Option::None => Option::None,
        }
    } else {
        Option::None
    }
}

/// Consumes one or more comma-separated pairs followed by the closing brace.
pub open spec fn parse_pairs(s: Seq<char>, i: int) -> Option<(Seq<(Seq<char>, Seq<char>)>, int)>
    decreases s.len() - i,
{
    match parse_pair(s, i) {
        Option::Some((p, j)) => if i < j && j < s.len() {
            if s[j] == '}' {
                Option::Some((seq![p], j + 1))
            } else if s[j] == ',' {
                match parse_pairs(s, j + 1) {
                    Option::Some((ps, j2)) => Option::Some((seq![p] + ps, j2)),
                    Option::None => Option::None,
                }
            } else {
                Option::None
            }
        } else {
            Option::None
        },
        Option::None => Option::None,
    }
}

/// Consumes the argument payload: `null`, or a brace-delimited object.
pub open spec fn parse_args(s: Seq<char>, i: int) -> Option<
    (Option<Seq<(Seq<char>, Seq<char>)>>, int),
> {
    match parse_lit(s, i, ("null")@) {
        Option::Some(j) => Option::Some((Option::None, j)),
        Option::None => match parse_lit(s, i, ("{")@) {
            Option::Some(j) => match parse_lit(s, j, ("}")@) {
                Option::Some(j2) => Option::Some(
                    (Option::Some(Seq::<(Seq<char>, Seq<char>)>::empty()), j2),
                ),
                Option::None => match parse_pairs(s, j) {
                    Option::Some((ps, j2)) => Option::Some((Option::Some(ps), j2)),
                    Option::None => Option::None,
                },
            },
            Option::None => Option::None,
        },
    }
}

/// Parses a whole serialized task; the inverse of [`ser_task`].
pub open spec fn parse_task(s: Seq<char>) -> Option<TaskView> {
    match parse_lit(s, 0, ("{\"id\":\"")@) {
        Option::None => Option::None,
        Option::Some(i1) => match parse_string(s, i1) {
            Option::None => Option::None,
            Option::Some((id, i2)) => match parse_lit(s, i2, (",\"name\":\"")@) {
                Option::None => Option::None,
                Option::Some(i3) => match parse_string(s, i3) {
                    Option::None => Option::None,
                    Option::Some((name, i4)) => match parse_lit(s, i4, (",\"description\":\"")@) {
                        Option::None => Option::None,
                        Option::Some(i5) => match parse_string(s, i5) {
                            Option::None => Option::None,
                            Option::Some((description, i6)) => parse_task_mid(
                                s,
                                i6,
                                id,
                                name,
                                description,
                            ),
                        },
                    },
                },
            },
        },
    }
}

/// The middle of [`parse_task`]: the category, priority and target-URL
/// fields.
pub open spec fn parse_task_mid(
    s: Seq<char>,
    i: int,
    id: Seq<char>,
    name: Seq<char>,
    description: Seq<char>,
) -> Option<TaskView> {
    match parse_lit(s, i, (",\"category\":\"")@) {
        Option::None => Option::None,
        Option::Some(i7) => match parse_string(s, i7) {
            Option::None => Option::None,
            Option::Some((category, i8)) => match parse_lit(s, i8, (",\"priority\":\"")@) {
                Option::None => Option::None,
                Option::Some(i9) => match parse_string(s, i9) {
                    Option::None => Option::None,
                    Option::Some((priority, i10)) => match parse_lit(s, i10, (",\"task\":\"")@) {
                        Option::None => Option::None,
                        Option::Some(i11) => match parse_string(s, i11) {
                            Option::None => Option::None,
                            Option::Some((task, i12)) => parse_task_tail(
                                s,
                                i12,
                                id,
                                name,
                                description,
                                category,
                                priority,
                                task,
                            ),
                        },
                    },
                },
            },
        },
    }
}

/// The back half of [`parse_task`]: firing time, cron expression, arguments
/// and the closing brace.
pub open spec fn parse_task_tail(
    s: Seq<char>,
    i: int,
    id: Seq<char>,
    name: Seq<char>,
    description: Seq<char>,
    category: Seq<char>,
    priority: Seq<char>,
    task: Seq<char>,
) -> Option<TaskView> {
    match parse_lit(s, i, (",\"scheduled_at\":")@) {
        Option::None => Option::None,
        Option::Some(i1) => match parse_u64(s, i1) {
            Option::None => Option::None,
            Option::Some((scheduled_at, i2)) => match parse_lit(
                s,
                i2,
                (",\"cron_scheduled_at\":\"")@,
            ) {
                Option::None => Option::None,
                Option::Some(i3) => match parse_string(s, i3) {
                    Option::None => Option::None,
                    Option::Some((cron_scheduled_at, i4)) => match parse_lit(s, i4, (",\"args\":")@) {
                        Option::None => Option::None,
                        Option::Some(i5) => match parse_args(s, i5) {
                            Option::None => Option::None,
                            Option::Some((args, i6)) => match parse_lit(s, i6, ("}")@) {
                                Option::None => Option::None,
                                Option::Some(end) => if end == s.len() {
                                    Option::Some(
                                        TaskView {
                                            id,
                                            name,
                                            description,
                                            category,
                                            priority,
                                            task,
                                            scheduled_at,
                                            cron_scheduled_at,
                                            args,
                                        },
                                    )
                                } else {
                                    Option::None
                                },
                            },
                        },
                    },
                },
            },
        },
    }
}

// ---------------------------------------------------------------------------
// The verified parser
// ---------------------------------------------------------------------------
fn is_digit(c: char) -> (b: bool)
    ensures
        b == is_digit_char(c),
{
    c == '0' || c == '1' || c == '2' || c == '3' || c == '4' || c == '5' || c == '6' || c == '7'
        || c == '8' || c == '9'
}

fn digit_value(c: char) -> (d: u64)
    requires
        is_digit_char(c),
    ensures
        d < 10,
        d as nat == digit_val(c),
{
    if c == '0' {
        0
    } else if c == '1' {
        1
    } else if c == '2' {
        2
    } else if c == '3' {
        3
    } else if c == '4' {
        4
    } else if c == '5' {
        5
    } else if c == '6' {
        6
    } else if c == '7' {
        7
    } else if c == '8' {
        8
    } else {
        9
    }
}

fn expect_lit(s: &str, i: usize, lit: &str) -> (r: Option<usize>)
    requires
        i <= s@.len(),
    ensures
        match r {
            Some(j) => parse_lit(s@, i as int, lit@) == Some(j as int) && i <= j <= s@.len(),
            None => parse_lit(s@, i as int, lit@) is None,
        },
{
    let n = s.unicode_len();
    let m = lit.unicode_len();
    if m > n - i {
        return Option::None;
    }
    let mut k: usize = 0;
    while k < m
        invariant
            k <= m,
            m == lit@.len(),
            n == s@.len(),
            i + m <= n,
            forall|t: int| 0 <= t < k ==> s@[i + t] == lit@[t],
        decreases m - k,
    {
        if s.get_char(i + k) != lit.get_char(k) {
            proof {
                assert(s@.subrange(i as int, i as int + lit@.len()) != lit@) by {
                    assert(s@.subrange(i as int, i as int + lit@.len())[k as int] == s@[i + k]);
                }
            }
            return Option::None;
        }
        k = k + 1;
    }
    proof {
        assert(s@.subrange(i as int, i as int + lit@.len()) =~= lit@);
    }
    Some(i + m)
}

fn parse_string_exec(s: &str, i: usize) -> (r: Option<(String, usize)>)
    requires
        i <= s@.len(),
    ensures
        match r {
            Some(p) => parse_string(s@, i as int) == Some((p.0@, p.1 as int)) && i < p.1
                <= s@.len(),
            None => parse_string(s@, i as int) is None,
        },
{
    let n = s.unicode_len();
    let mut k: usize = i;
    let mut acc = String::new();
    proof {
        if parse_string(s@, i as int) is Some {
            assert(Seq::<char>::empty() + parse_string(s@, i as int)->Some_0.0 =~= parse_string(
                s@,
                i as int,
            )->Some_0.0);
        }
    }
    loop
        invariant
            i <= k <= n,
            n == s@.len(),
            parse_string(s@, k as int) is Some ==> parse_string(s@, i as int) == Some(
                (
                    acc@ + parse_string(s@, k as int)->Some_0.0,
                    parse_string(s@, k as int)->Some_0.1,
                ),
            ),
            parse_string(s@, k as int) is None ==> parse_string(s@, i as int) is None,
        decreases n - k,
    {
        if k >= n {
            return Option::None;
        }
        let c = s.get_char(k);
        if c == '"' {
            proof {
                assert(parse_string(s@, k as int) == Some((Seq::<char>::empty(), k as int + 1)));
                assert(acc@ + Seq::<char>::empty() =~= acc@);
            }
            return Some((acc, k + 1));
        } else if c == '\\' {
            if k + 1 >= n {
                return Option::None;
            }
            let c2 = s.get_char(k + 1);
            if c2 == '"' || c2 == '\\' {
                let ghost acc0 = acc@;
                push_one(&mut acc, c2);
                proof {
                    if parse_string(s@, k as int + 2) is Some {
                        let tail = parse_string(s@, k as int + 2)->Some_0.0;
                        assert(parse_string(s@, k as int)->Some_0.0 == seq![s@[k as int + 1]]
                            + tail);
                        assert(acc0 + (seq![c2] + tail) =~= acc@ + tail);
                    }
                }
                k = k + 2;
            } else {
                return Option::None;
            }
        } else {
            let ghost acc0 = acc@;
            push_one(&mut acc, c);
            proof {
                if parse_string(s@, k as int + 1) is Some {
                    let tail = parse_string(s@, k as int + 1)->Some_0.0;
                    assert(parse_string(s@, k as int)->Some_0.0 == seq![s@[k as int]] + tail);
                    assert(acc0 + (seq![c] + tail) =~= acc@ + tail);
                }
            }
            k = k + 1;
        }
    }
}

proof fn lemma_digits_val_mono(s: Seq<char>, i: int, a: int, b: int)
    requires
        0 <= i <= a <= b <= s.len(),
    ensures
        digits_val(s.subrange(i, b)) >= digits_val(s.subrange(i, a)),
    decreases b - a,
{
    if a < b {
        lemma_digits_val_mono(s, i, a, b - 1);
        assert(s.subrange(i, b).drop_last() =~= s.subrange(i, b - 1));
        assert(digits_val(s.subrange(i, b)) == digits_val(s.subrange(i, b - 1)) * 10 + digit_val(
            s.subrange(i, b).last(),
        ));
    }
}

fn parse_u64_exec(s: &str, i: usize) -> (r: Option<(u64, usize)>)
    requires
        i <= s@.len(),
    ensures
        match r {
            Some(p) => parse_u64(s@, i as int) == Some((p.0, p.1 as int)) && i < p.1 <= s@.len(),
            None => parse_u64(s@, i as int) is None,
        },
{
    let n = s.unicode_len();
    // find the end of the digit run
    let mut j: usize = i;
    while j < n && is_digit(s.get_char(j))
        invariant
            i <= j <= n,
            n == s@.len(),
            forall|m: int| i <= m < j ==> is_digit_char(s@[m]),
            digit_run_end(s@, i as int) == digit_run_end(s@, j as int),
        decreases n - j,
    {
        j = j + 1;
    }
    proof {
        assert(digit_run_end(s@, j as int) == j);
    }
    if j == i {
        return Option::None;
    }
    // accumulate, watching for overflow
    let mut k: usize = i;
    let mut acc: u64 = 0;
    while k < j
        invariant
            i <= k <= j <= n,
            n == s@.len(),
            forall|m: int| i <= m < j ==> is_digit_char(s@[m]),
            digit_run_end(s@, i as int) == j,
            acc as nat == digits_val(s@.subrange(i as int, k as int)),
        decreases j - k,
    {
        let c = s.get_char(k);
        let dv = digit_value(c);
        proof {
            assert(s@.subrange(i as int, k as int + 1).drop_last() =~= s@.subrange(
                i as int,
                k as int,
            ));
            assert(s@.subrange(i as int, k as int + 1).last() == s@[k as int]);
            assert(digits_val(s@.subrange(i as int, k as int + 1)) == (acc as nat) * 10
                + digit_val(s@[k as int]));
        }
        if acc > u64::MAX / 10 {
            proof {
                lemma_digits_val_mono(s@, i as int, k as int + 1, j as int);
            }
            return Option::None;
        }
        let acc10 = acc * 10;
        if dv > u64::MAX - acc10 {
            proof {
                lemma_digits_val_mono(s@, i as int, k as int + 1, j as int);
            }
            return Option::None;
        }
        acc = acc10 + dv;
        k = k + 1;
    }
    Some((acc, j))
}

proof fn lemma_parse_string_bounds(s: Seq<char>, i: int)
    ensures
        parse_string(s, i) matches Some(r) ==> i + 1 <= r.1 <= s.len(),
    decreases s.len() - i,
{
    if 0 <= i && i < s.len() {
        if s[i] == '"' {
        } else if s[i] == '\\' {
            if i + 1 < s.len() && (s[i + 1] == '"' || s[i + 1] == '\\') {
                lemma_parse_string_bounds(s, i + 2);
            }
        } else {
            lemma_parse_string_bounds(s, i + 1);
        }
    }
}

proof fn lemma_parse_pair_bounds(s: Seq<char>, i: int)
    ensures
        parse_pair(s, i) matches Some(r) ==> i + 5 <= r.1 <= s.len(),
{
    if 0 <= i && i < s.len() && s[i] == '"' {
        lemma_parse_string_bounds(s, i + 1);
        if parse_string(s, i + 1) is Some {
            let j = parse_string(s, i + 1)->Some_0.1;
            if parse_lit(s, j, seq![':', '"']) is Some {
                lemma_parse_string_bounds(s, j + 2);
            }
        }
    }
}

fn parse_pair_exec(s: &str, i: usize) -> (r: Option<((String, String), usize)>)
    requires
        i <= s@.len(),
    ensures
        match r {
            Some(p) => parse_pair(s@, i as int) == Some(((p.0.0@, p.0.1@), p.1 as int)) && i < p.1
                <= s@.len(),
            None => parse_pair(s@, i as int) is None,
        },
{
    let n = s.unicode_len();
    if i >= n {
        return Option::None;
    }
    if s.get_char(i) != '"' {
        return Option::None;
    }
    let (k_str, j) = match parse_string_exec(s, i + 1) {
        Some(p) => p,
        None => {
            return Option::None;
        },
    };
    let j2 = match expect_lit(s, j, ":\"") {
        Some(j2) => j2,
        None => {
            proof {
                reveal_strlit(":\"");
                assert((":\"")@ =~= seq![':', '"']);
            }
            return Option::None;
        },
    };
    proof {
        reveal_strlit(":\"");
        assert((":\"")@ =~= seq![':', '"']);
    }
    let (v_str, j3) = match parse_string_exec(s, j2) {
        Some(p) => p,
        None => {
            return Option::None;
        },
    };
    Some(((k_str, v_str), j3))
}

/// The pair list of a vector of owned key/value strings.
pub open spec fn pairs_vec_view(v: Seq<(String, String)>) -> Seq<(Seq<char>, Seq<char>)> {
    Seq::new(v.len(), |t: int| (v[t].0@, v[t].1@))
}

fn parse_pairs_exec(s: &str, i: usize) -> (r: Option<(Vec<(String, String)>, usize)>)
    requires
        i <= s@.len(),
    ensures
        match r {
            Some(p) => parse_pairs(s@, i as int) == Some((pairs_vec_view(p.0@), p.1 as int)) && i
                < p.1 <= s@.len(),
            None => parse_pairs(s@, i as int) is None,
        },
{
    let n = s.unicode_len();
    let mut acc: Vec<(String, String)> = Vec::new();
    let mut k: usize = i;
    loop
        invariant
            i <= k <= n,
            n == s@.len(),
            parse_pairs(s@, k as int) is Some ==> parse_pairs(s@, i as int) == Some(
                (
                    pairs_vec_view(acc@) + parse_pairs(s@, k as int)->Some_0.0,
                    parse_pairs(s@, k as int)->Some_0.1,
                ),
            ),
            parse_pairs(s@, k as int) is None ==> parse_pairs(s@, i as int) is None,
        decreases n - k,
    {
        let (p, j) = match parse_pair_exec(s, k) {
            Some(q) => q,
            None => {
                return Option::None;
            },
        };
        proof {
            lemma_parse_pair_bounds(s@, k as int);
        }
        if j >= n {
            return Option::None;
        }
        let c = s.get_char(j);
        if c == '}' {
            let ghost pv = (p.0@, p.1@);
            let ghost accv0 = acc@;
            acc.push(p);
            proof {
                assert(parse_pairs(s@, k as int) == Some((seq![pv], j as int + 1)));
                assert(pairs_vec_view(acc@) =~= pairs_vec_view(accv0).push(pv));
                assert(pairs_vec_view(accv0) + seq![pv] =~= pairs_vec_view(acc@));
            }
            return Some((acc, j + 1));
        } else if c == ',' {
            let ghost pv = (p.0@, p.1@);
            let ghost accv0 = acc@;
            acc.push(p);
            proof {
                assert(pairs_vec_view(acc@) =~= pairs_vec_view(accv0).push(pv));
                if parse_pairs(s@, j as int + 1) is Some {
                    let tailps = parse_pairs(s@, j as int + 1)->Some_0.0;
                    assert(parse_pairs(s@, k as int)->Some_0.0 == seq![pv] + tailps);
                    assert(pairs_vec_view(accv0) + (seq![pv] + tailps) =~= pairs_vec_view(acc@)
                        + tailps);
                }
            }
            k = j + 1;
        } else {
            return Option::None;
        }
    }
}

fn parse_args_exec(s: &str, i: usize) -> (r: Option<(Option<Vec<(String, String)>>, usize)>)
    requires
        i <= s@.len(),
    ensures
        match r {
            Some(p) => parse_args(s@, i as int) == Some((args_view(p.0), p.1 as int)) && i < p.1
                <= s@.len(),
            None => parse_args(s@, i as int) is None,
        },
{
    match expect_lit(s, i, "null") {
        Some(j) => {
            proof {
                reveal_strlit("null");
            }
            return Some((Option::None, j));
        },
        None => {
        },
    }
    let j = match expect_lit(s, i, "{") {
        Some(j) => j,
        None => {
            return Option::None;
        },
    };
    match expect_lit(s, j, "}") {
        Some(j2) => {
            let empty_args: Vec<(String, String)> = Vec::new();
            proof {
                reveal_strlit("{");
                assert(args_view(Some(empty_args)) == Some(Seq::<(Seq<char>, Seq<char>)>::empty()))
                    by {
                    assert(Seq::new(0, |t: int| (empty_args@[t].0@, empty_args@[t].1@))
                        =~= Seq::<(Seq<char>, Seq<char>)>::empty());
                }
            }
            return Some((Some(empty_args), j2));
        },
        None => {
        },
    }
    match parse_pairs_exec(s, j) {
        Some((ps, j2)) => {
            proof {
                assert(args_view(Some(ps)) == Some(pairs_vec_view(ps@))) by {
                    assert(Seq::new(ps@.len(), |t: int| (ps@[t].0@, ps@[t].1@)) =~= pairs_vec_view(
                        ps@,
                    ));
                }
            }
            Some((Some(ps), j2))
        },
        None => Option::None,
    }
}

fn invalid_task_error() -> (r: TaskQueueError)
    ensures
        r matches TaskQueueError::Serde(_),
{
    TaskQueueError::Serde(String::from_str("queue member is not a valid task"))
}

/// Parses a task from its JSON wire form; exactly [`parse_task`] of the
/// input, with any failure reported as a `Serde` error.
pub fn deserialize_task(s: &str) -> (r: Result<BaseTask, TaskQueueError>)
    ensures
        r is Ok <==> parse_task(s@) is Some,
        r matches Ok(t) ==> parse_task(s@) == Some(t@),
        r matches Err(e) ==> e matches TaskQueueError::Serde(_),
{
    let n = s.unicode_len();
    let i1 = match expect_lit(s, 0, "{\"id\":\"") {
        Some(j) => j,
        None => {
            return Err(invalid_task_error());
        },
    };
    let (id, i2) = match parse_string_exec(s, i1) {
        Some(p) => p,
        None => {
            return Err(invalid_task_error());
        },
    };
    let i3 = match expect_lit(s, i2, ",\"name\":\"") {
        Some(j) => j,
        None => {
            return Err(invalid_task_error());
        },
    };
    let (name, i4) = match parse_string_exec(s, i3) {
        Some(p) => p,
        None => {
            return Err(invalid_task_error());
        },
    };
    let i5 = match expect_lit(s, i4, ",\"description\":\"") {
        Some(j) => j,
        None => {
            return Err(invalid_task_error());
        },
    };
    let (description, i6) = match parse_string_exec(s, i5) {
        Some(p) => p,
        None => {
            return Err(invalid_task_error());
        },
    };
    let i7 = match expect_lit(s, i6, ",\"category\":\"") {
        Some(j) => j,
        None => {
            return Err(invalid_task_error());
        },
    };
    let (category, i8) = match parse_string_exec(s, i7) {
        Some(p) => p,
        None => {
            return Err(invalid_task_error());
        },
    };
    let i9 = match expect_lit(s, i8, ",\"priority\":\"") {
        Some(j) => j,
        None => {
            return Err(invalid_task_error());
        },
    };
    let (priority, i10) = match parse_string_exec(s, i9) {
        Some(p) => p,
        None => {
            return Err(invalid_task_error());
        },
    };
    let i11 = match expect_lit(s, i10, ",\"task\":\"") {
        Some(j) => j,
        None => {
            return Err(invalid_task_error());
        },
    };
    let (task, i12) = match parse_string_exec(s, i11) {
        Some(p) => p,
        None => {
            return Err(invalid_task_error());
        },
    };
    let i13 = match expect_lit(s, i12, ",\"scheduled_at\":") {
        Some(j) => j,
        None => {
            return Err(invalid_task_error());
        },
    };
    let (scheduled_at, i14) = match parse_u64_exec(s, i13) {
        Some(p) => p,
        None => {
            return Err(invalid_task_error());
        },
    };
    let i15 = match expect_lit(s, i14, ",\"cron_scheduled_at\":\"") {
        Some(j) => j,
        None => {
            return Err(invalid_task_error());
        },
    };
    let (cron_scheduled_at, i16) = match parse_string_exec(s, i15) {
        Some(p) => p,
        None => {
            return Err(invalid_task_error());
        },
    };
    let i17 = match expect_lit(s, i16, ",\"args\":") {
        Some(j) => j,
        None => {
            return Err(invalid_task_error());
        },
    };
    let (args, i18) = match parse_args_exec(s, i17) {
        Some(p) => p,
        None => {
            return Err(invalid_task_error());
        },
    };
    let end = match expect_lit(s, i18, "}") {
        Some(j) => j,
        None => {
            return Err(invalid_task_error());
        },
    };
    if end != n {
        return Err(invalid_task_error());
    }
    let t = BaseTask {
        id,
        name,
        description,
        category,
        priority,
        task,
        scheduled_at,
        cron_scheduled_at,
        args,
    };
    proof {
        assert(parse_task_tail(
            s@,
            i12 as int,
            t@.id,
            t@.name,
            t@.description,
            t@.category,
            t@.priority,
            t@.task,
        ) == Some(t@));
        assert(parse_task_mid(s@, i6 as int, t@.id, t@.name, t@.description) == Some(t@));
        assert(parse_task(s@) == Some(t@));
    }
    Ok(t)
}

// ---------------------------------------------------------------------------
// Round trip: parsing inverts serialization
// ---------------------------------------------------------------------------
proof fn seq_assoc(a: Seq<char>, b: Seq<char>, c: Seq<char>)
    ensures
        (a + b) + c == a + (b + c),
{
    assert((a + b) + c =~= a + (b + c));
}

proof fn lemma_peel_back(s: Seq<char>, e: int, x: Seq<char>, p: Seq<char>)
    requires
        0 <= e <= s.len(),
        s.subrange(0, e) == x + p,
    ensures
        x.len() + p.len() == e,
        s.subrange(0, e - p.len()) == x,
        s.subrange(e - p.len(), e) == p,
{
    assert(s.subrange(0, e).len() == e);
    assert(forall|k: int| 0 <= k < e ==> s[k] == (x + p)[k]) by {
        assert(forall|k: int| 0 <= k < e ==> s.subrange(0, e)[k] == s[k]);
    }
    assert(s.subrange(0, e - p.len()) =~= x) by {
        assert(forall|k: int| 0 <= k < x.len() ==> (x + p)[k] == x[k]);
    }
    assert(s.subrange(e - p.len(), e) =~= p) by {
        assert(forall|k: int| 0 <= k < p.len() ==> (x + p)[x.len() + k] == p[k]);
    }
}

proof fn lemma_glue1(s: Seq<char>, a: int, b: int, x: Seq<char>)
    requires
        0 <= a <= b <= s.len(),
        s.subrange(a, b) == x,
    ensures
        s.subrange(a, s.len() as int) == x + s.subrange(b, s.len() as int),
{
    assert(x.len() == b - a);
    assert(forall|k: int| 0 <= k < x.len() ==> x[k] == s[a + k]) by {
        assert(forall|k: int| 0 <= k < b - a ==> s.subrange(a, b)[k] == s[a + k]);
    }
    assert(forall|k: int| 0 <= k < s.len() - b ==> s.subrange(b, s.len() as int)[k] == s[b + k]);
    assert(s.subrange(a, s.len() as int) =~= x + s.subrange(b, s.len() as int));
}

proof fn lemma_glue2(s: Seq<char>, a: int, b: int, c: int, x: Seq<char>, y: Seq<char>)
    requires
        0 <= a <= b <= c <= s.len(),
        s.subrange(a, b) == x,
        s.subrange(b, c) == y,
    ensures
        s.subrange(a, s.len() as int) == x + y + s.subrange(c, s.len() as int),
{
    lemma_glue1(s, b, c, y);
    lemma_glue1(s, a, b, x);
    seq_assoc(x, y, s.subrange(c, s.len() as int));
}

proof fn lemma_parse_lit_ser(s: Seq<char>, i: int, l: Seq<char>, rest: Seq<char>)
    requires
        0 <= i <= s.len(),
        s.subrange(i, s.len() as int) == l + rest,
    ensures
        i + l.len() <= s.len(),
        parse_lit(s, i, l) == Some(i + l.len()),
        s.subrange(i, i + l.len()) == l,
        s.subrange(i + l.len(), s.len() as int) == rest,
{
    assert(s.subrange(i, s.len() as int).len() == s.len() - i);
    assert(s.subrange(i, i + l.len()) =~= l) by {
        assert(forall|k: int| 0 <= k < s.len() - i ==> s.subrange(i, s.len() as int)[k] == s[i
            + k]);
        assert(forall|k: int| 0 <= k < l.len() ==> (l + rest)[k] == l[k]);
    }
    assert(s.subrange(i + l.len(), s.len() as int) =~= rest) by {
        assert(forall|k: int| 0 <= k < s.len() - i ==> s.subrange(i, s.len() as int)[k] == s[i
            + k]);
        assert(forall|k: int| 0 <= k < rest.len() ==> (l + rest)[l.len() + k] == rest[k]);
    }
}

proof fn lemma_char_at(s: Seq<char>, i: int, l: Seq<char>, k: int)
    requires
        0 <= i,
        i + l.len() <= s.len(),
        s.subrange(i, i + l.len()) == l,
        0 <= k < l.len(),
    ensures
        s[i + k] == l[k],
{
    assert(s.subrange(i, i + l.len())[k] == s[i + k]);
}

proof fn lemma_parse_string_ser(s: Seq<char>, i: int, c: Seq<char>, rest: Seq<char>)
    requires
        0 <= i <= s.len(),
        s.subrange(i, s.len() as int) == escape_seq(c) + seq!['"'] + rest,
    ensures
        parse_string(s, i) == Some((c, i + escape_seq(c).len() + 1)),
    decreases c.len(),
{
    let esc = escape_seq(c);
    assert(s.subrange(i, s.len() as int).len() == s.len() - i);
    if c.len() == 0 {
        assert(esc == Seq::<char>::empty());
        assert(Seq::<char>::empty() + seq!['"'] =~= seq!['"']);
        assert(s.subrange(i, s.len() as int) == seq!['"'] + rest);
        lemma_parse_lit_ser(s, i, seq!['"'], rest);
        lemma_char_at(s, i, seq!['"'], 0);
        assert(s[i] == '"');
        assert(c =~= Seq::<char>::empty());
    } else {
        let c0 = c[0];
        let ctail = c.drop_first();
        let esct = escape_seq(ctail);
        assert(esc == escape_char(c0) + esct);
        if c0 == '"' || c0 == '\\' {
            assert(escape_char(c0) =~= seq!['\\', c0]);
            seq_assoc(seq!['\\', c0], esct, seq!['"']);
            seq_assoc(seq!['\\', c0], esct + seq!['"'], rest);
            assert(s.subrange(i, s.len() as int) == seq!['\\', c0] + ((esct + seq!['"']) + rest));
            lemma_parse_lit_ser(s, i, seq!['\\', c0], (esct + seq!['"']) + rest);
            lemma_char_at(s, i, seq!['\\', c0], 0);
            lemma_char_at(s, i, seq!['\\', c0], 1);
            assert(s[i] == '\\' && s[i + 1] == c0);
            assert(i + 1 < s.len());
            lemma_parse_string_ser(s, i + 2, ctail, rest);
            assert(seq![s[i + 1]] + ctail =~= c);
            assert(parse_string(s, i) == Some((c, i + esc.len() + 1)));
        } else {
            assert(escape_char(c0) =~= seq![c0]);
            seq_assoc(seq![c0], esct, seq!['"']);
            seq_assoc(seq![c0], esct + seq!['"'], rest);
            assert(s.subrange(i, s.len() as int) == seq![c0] + ((esct + seq!['"']) + rest));
            lemma_parse_lit_ser(s, i, seq![c0], (esct + seq!['"']) + rest);
            lemma_char_at(s, i, seq![c0], 0);
            assert(s[i] == c0);
            assert(s[i] != '"' && s[i] != '\\');
            lemma_parse_string_ser(s, i + 1, ctail, rest);
            assert(seq![s[i]] + ctail =~= c);
            assert(parse_string(s, i) == Some((c, i + esc.len() + 1)));
        }
    }
}

proof fn lemma_digit_char_val(d: nat)
    requires
        d < 10,
    ensures
        digit_val(digit_char(d)) == d,
        is_digit_char(digit_char(d)),
{
}

proof fn lemma_dec_digits_are_digits(n: nat)
    ensures
        dec_digits(n).len() >= 1,
        forall|k: int| 0 <= k < dec_digits(n).len() ==> is_digit_char(dec_digits(n)[k]),
    decreases n,
{
    if n < 10 {
        assert(is_digit_char(digit_char(n)));
    } else {
        lemma_dec_digits_are_digits(n / 10);
        assert(is_digit_char(digit_char(n % 10)));
        assert(forall|k: int|
            0 <= k < dec_digits(n).len() ==> is_digit_char(#[trigger] dec_digits(n)[k])) by {
            assert(forall|k: int|
                0 <= k < dec_digits(n / 10).len() ==> is_digit_char(
                    #[trigger] dec_digits(n / 10)[k],
                ));
            assert(dec_digits(n) == dec_digits(n / 10) + seq![digit_char(n % 10)]);
            assert(forall|k: int|
                0 <= k < dec_digits(n / 10).len() ==> #[trigger] dec_digits(n)[k] == dec_digits(
                    n / 10,
                )[k]);
            assert(dec_digits(n)[dec_digits(n).len() - 1] == digit_char(n % 10));
        }
    }
}

proof fn lemma_digits_val_dec(n: nat)
    ensures
        digits_val(dec_digits(n)) == n,
    decreases n,
{
    if n < 10 {
        let d = dec_digits(n);
        assert(d.len() == 1);
        assert(d.drop_last() =~= Seq::<char>::empty());
        assert(d.last() == digit_char(n));
        lemma_digit_char_val(n);
        assert(digits_val(d) == digits_val(Seq::<char>::empty()) * 10 + digit_val(digit_char(n)));
        assert(digits_val(d) == n);
    } else {
        lemma_digits_val_dec(n / 10);
        let d = dec_digits(n);
        assert(d == dec_digits(n / 10) + seq![digit_char(n % 10)]);
        assert(d.drop_last() =~= dec_digits(n / 10));
        assert(d.last() == digit_char(n % 10));
        lemma_digit_char_val(n % 10);
        assert(digits_val(d) == digits_val(dec_digits(n / 10)) * 10 + digit_val(
            digit_char(n % 10),
        ));
        assert(digits_val(d) == (n / 10) * 10 + n % 10);
        vstd::arithmetic::div_mod::lemma_fundamental_div_mod(n as int, 10);
        assert((n / 10) * 10 + n % 10 == n);
    }
}

proof fn lemma_digit_run_end_at(s: Seq<char>, i: int, j: int)
    requires
        0 <= i <= j <= s.len(),
        forall|m: int| i <= m < j ==> is_digit_char(s[m]),
        j == s.len() || !is_digit_char(s[j]),
    ensures
        digit_run_end(s, i) == j,
    decreases j - i,
{
    if i < j {
        assert(is_digit_char(s[i]));
        lemma_digit_run_end_at(s, i + 1, j);
    }
}

proof fn lemma_parse_u64_ser(s: Seq<char>, i: int, n: u64, rest: Seq<char>)
    requires
        0 <= i <= s.len(),
        s.subrange(i, s.len() as int) == dec_digits(n as nat) + rest,
        rest.len() > 0,
        !is_digit_char(rest[0]),
    ensures
        parse_u64(s, i) == Some((n, i + dec_digits(n as nat).len())),
        s.subrange(i + dec_digits(n as nat).len(), s.len() as int) == rest,
{
    let d = dec_digits(n as nat);
    lemma_dec_digits_are_digits(n as nat);
    lemma_parse_lit_ser(s, i, d, rest);
    let j = i + d.len();
    assert forall|m: int| i <= m < j implies is_digit_char(#[trigger] s[m]) by {
        let k = m - i;
        lemma_char_at(s, i, d, k);
        assert(s[i + k] == d[k]);
        assert(is_digit_char(d[k]));
    }
    assert(j < s.len());
    assert(s[j] == s.subrange(j, s.len() as int)[0]);
    assert(!is_digit_char(s[j]));
    lemma_digit_run_end_at(s, i, j);
    lemma_digits_val_dec(n as nat);
    assert(s.subrange(i, j) == d);
    assert(digits_val(s.subrange(i, j)) == n as nat);
}

proof fn lemma_parse_pair_ser(s: Seq<char>, i: int, p: (Seq<char>, Seq<char>), rest: Seq<char>)
    requires
        0 <= i <= s.len(),
        s.subrange(i, s.len() as int) == ser_pair(p) + rest,
    ensures
        ser_pair(p).len() >= 5,
        parse_pair(s, i) == Some((p, i + ser_pair(p).len())),
        s.subrange(i + ser_pair(p).len(), s.len() as int) == rest,
{
    let ek = escape_seq(p.0);
    let ev = escape_seq(p.1);
    let q = seq!['"'];
    let colq = seq![':', '"'];
    assert(seq!['"', ':', '"'] =~= q + colq);
    // regroup the pair's wire form so that each step's input is a prefix
    let t4 = (ev + q) + rest;
    let t3 = colq + t4;
    let t2 = (ek + q) + t3;
    assert(ser_pair(p) + rest =~= q + t2);
    lemma_parse_lit_ser(s, i, q, t2);
    lemma_char_at(s, i, q, 0);
    assert(s[i] == '"');
    lemma_parse_string_ser(s, i + 1, p.0, t3);
    assert(parse_string(s, i + 1) == Some((p.0, i + 1 + ek.len() + 1)));
    lemma_parse_lit_ser(s, i + 1, ek + q, t3);
    let m = i + 1 + ek.len() + 1;
    lemma_parse_lit_ser(s, m, colq, t4);
    assert(parse_lit(s, m, seq![':', '"']) == Some(m + 2));
    lemma_parse_string_ser(s, m + 2, p.1, rest);
    assert(parse_string(s, m + 2) == Some((p.1, m + 2 + ev.len() + 1)));
    lemma_parse_lit_ser(s, m + 2, ev + q, rest);
    assert((p.0, p.1) == p);
    assert(ser_pair(p).len() == 1 + ek.len() + 3 + ev.len() + 1);
    assert(parse_pair(s, i) == Some((p, i + ser_pair(p).len())));
}

proof fn lemma_parse_pairs_ser(
    s: Seq<char>,
    i: int,
    ps: Seq<(Seq<char>, Seq<char>)>,
    rest: Seq<char>,
)
    requires
        ps.len() >= 1,
        0 <= i <= s.len(),
        s.subrange(i, s.len() as int) == ser_pairs(ps) + seq!['}'] + rest,
    ensures
        parse_pairs(s, i) == Some((ps, i + ser_pairs(ps).len() + 1)),
        s.subrange(i + ser_pairs(ps).len() + 1, s.len() as int) == rest,
    decreases ps.len(),
{
    assert(s.subrange(i, s.len() as int).len() == s.len() - i);
    if ps.len() == 1 {
        assert(ser_pairs(ps) == ser_pair(ps[0]));
        assert(ser_pairs(ps) + seq!['}'] + rest =~= ser_pair(ps[0]) + (seq!['}'] + rest));
        lemma_parse_pair_ser(s, i, ps[0], seq!['}'] + rest);
        let j = i + ser_pair(ps[0]).len();
        lemma_parse_lit_ser(s, j, seq!['}'], rest);
        lemma_char_at(s, j, seq!['}'], 0);
        assert(s[j] == '}');
        assert(j < s.len());
        assert(parse_pairs(s, i) == Some((seq![ps[0]], j + 1)));
        assert(seq![ps[0]] =~= ps);
    } else {
        let tail = ps.drop_first();
        assert(ser_pairs(ps) == ser_pair(ps[0]) + seq![','] + ser_pairs(tail));
        let t = (ser_pairs(tail) + seq!['}']) + rest;
        assert(ser_pairs(ps) + seq!['}'] + rest =~= ser_pair(ps[0]) + (seq![','] + t));
        lemma_parse_pair_ser(s, i, ps[0], seq![','] + t);
        let j = i + ser_pair(ps[0]).len();
        lemma_parse_lit_ser(s, j, seq![','], t);
        lemma_char_at(s, j, seq![','], 0);
        assert(s[j] == ',');
        assert(j < s.len());
        lemma_parse_pairs_ser(s, j + 1, tail, rest);
        assert(parse_pairs(s, i) == Some((seq![ps[0]] + tail, j + 1 + ser_pairs(tail).len() + 1)));
        assert(seq![ps[0]] + tail =~= ps);
    }
}

proof fn lemma_parse_args_ser(
    s: Seq<char>,
    i: int,
    a: Option<Seq<(Seq<char>, Seq<char>)>>,
    rest: Seq<char>,
)
    requires
        0 <= i <= s.len(),
        s.subrange(i, s.len() as int) == ser_args(a) + rest,
    ensures
        parse_args(s, i) == Some((a, i + ser_args(a).len())),
        s.subrange(i + ser_args(a).len(), s.len() as int) == rest,
{
    reveal_strlit("null");
    reveal_strlit("{");
    reveal_strlit("}");
    assert(("null")@.len() == 4 && ("null")@[0] == 'n');
    assert(("{")@ =~= seq!['{']);
    assert(("}")@ =~= seq!['}']);
    assert(s.subrange(i, s.len() as int).len() == s.len() - i);
    match a {
        Option::None => {
            lemma_parse_lit_ser(s, i, ("null")@, rest);
        },
        Option::Some(ps) => {
            if ps.len() == 0 {
                assert(ser_pairs(ps) == Seq::<char>::empty());
                assert(ser_args(a) + rest =~= seq!['{'] + (seq!['}'] + rest));
                lemma_parse_lit_ser(s, i, seq!['{'], seq!['}'] + rest);
                lemma_parse_lit_ser(s, i + 1, seq!['}'], rest);
                lemma_char_at(s, i, seq!['{'], 0);
                assert(s[i] == '{');
                assert(parse_lit(s, i, ("null")@) is None) by {
                    if 0 <= i && i + 4 <= s.len() && s.subrange(i, i + 4) == ("null")@ {
                        assert(s.subrange(i, i + 4)[0] == s[i]);
                        assert(false);
                    }
                }
                assert(parse_lit(s, i, ("{")@) == Some(i + 1));
                assert(parse_lit(s, i + 1, ("}")@) == Some(i + 2));
                assert(a == Option::Some(Seq::<(Seq<char>, Seq<char>)>::empty()));
                assert(ser_args(a).len() == 2);
            } else {
                let t = (ser_pairs(ps) + seq!['}']) + rest;
                assert(ser_args(a) + rest =~= seq!['{'] + t);
                lemma_parse_lit_ser(s, i, seq!['{'], t);
                lemma_char_at(s, i, seq!['{'], 0);
                assert(s[i] == '{');
                assert(parse_lit(s, i, ("null")@) is None) by {
                    if 0 <= i && i + 4 <= s.len() && s.subrange(i, i + 4) == ("null")@ {
                        assert(s.subrange(i, i + 4)[0] == s[i]);
                        assert(false);
                    }
                }
                assert(parse_lit(s, i, ("{")@) == Some(i + 1));
                lemma_parse_pairs_ser(s, i + 1, ps, rest);
                assert(ser_pair(ps[0])[0] == '"');
                assert(ser_pairs(ps)[0] == '"');
                assert(i + 1 < s.len());
                assert(s[i + 1] == '"') by {
                    assert(s.subrange(i + 1, s.len() as int)[0] == s[i + 1]);
                    assert((ser_pairs(ps) + seq!['}'] + rest)[0] == ser_pairs(ps)[0]);
                }
                assert(parse_lit(s, i + 1, ("}")@) is None) by {
                    if 0 <= i + 1 && i + 2 <= s.len() && s.subrange(i + 1, i + 2) == ("}")@ {
                        assert(s.subrange(i + 1, i + 2)[0] == s[i + 1]);
                        assert(false);
                    }
                }
                assert(ser_args(a).len() == 1 + ser_pairs(ps).len() + 1);
                assert(parse_args(s, i) == Some((a, i + ser_args(a).len())));
            }
        },
    }
}

/// The length of the wire form up to and including the closing quote of the
/// `task` field.
spec fn ser_front_len(v: TaskView) -> int {
    ("{\"id\":\"")@.len() as int + escape_seq(v.id).len() + 1 + (",\"name\":\"")@.len() + escape_seq(
        v.name,
    ).len() + 1 + (",\"description\":\"")@.len() + escape_seq(v.description).len() + 1 + (
    ",\"category\":\"")@.len() + escape_seq(v.category).len() + 1 + (",\"priority\":\"")@.len()
        + escape_seq(v.priority).len() + 1 + (",\"task\":\"")@.len() + escape_seq(v.task).len() + 1
}

/// The length of the wire form up to and including the closing quote of the
/// `description` field.
spec fn ser_head_len(v: TaskView) -> int {
    ("{\"id\":\"")@.len() as int + escape_seq(v.id).len() + 1 + (",\"name\":\"")@.len()
        + escape_seq(v.name).len() + 1 + (",\"description\":\"")@.len() + escape_seq(
        v.description,
    ).len() + 1
}

#[verifier::rlimit(100)]
#[verifier::spinoff_prover]
proof fn lemma_round_trip_front1(v: TaskView)
    ensures
        parse_task(ser_task(v)) == parse_task_mid(
            ser_task(v),
            ser_head_len(v),
            v.id,
            v.name,
            v.description,
        ),
{
    let s = ser_task(v);
    let a1 = ("{\"id\":\"")@;
    let a2 = a1 + escape_seq(v.id);
    let a3 = a2 + seq!['"'];
    let a4 = a3 + (",\"name\":\"")@;
    let a5 = a4 + escape_seq(v.name);
    let a6 = a5 + seq!['"'];
    let a7 = a6 + (",\"description\":\"")@;
    let a8 = a7 + escape_seq(v.description);
    let a9 = a8 + seq!['"'];
    let e9 = a9.len() as int;
    assert(s.len() >= e9);
    assert(s.subrange(0, e9) =~= a9);
    lemma_peel_back(s, e9, a8, seq!['"']);
    let e8 = e9 - 1;
    lemma_peel_back(s, e8, a7, escape_seq(v.description));
    let e7 = e8 - escape_seq(v.description).len();
    lemma_peel_back(s, e7, a6, (",\"description\":\"")@);
    let e6 = e7 - (",\"description\":\"")@.len();
    lemma_peel_back(s, e6, a5, seq!['"']);
    let e5 = e6 - 1;
    lemma_peel_back(s, e5, a4, escape_seq(v.name));
    let e4 = e5 - escape_seq(v.name).len();
    lemma_peel_back(s, e4, a3, (",\"name\":\"")@);
    let e3 = e4 - (",\"name\":\"")@.len();
    lemma_peel_back(s, e3, a2, seq!['"']);
    let e2 = e3 - 1;
    lemma_peel_back(s, e2, a1, escape_seq(v.id));
    let e1 = e2 - escape_seq(v.id).len();
    assert(e1 == a1.len());
    // the opening literal
    lemma_glue1(s, 0, e1, a1);
    lemma_parse_lit_ser(s, 0, a1, s.subrange(e1, s.len() as int));
    assert(parse_lit(s, 0, ("{\"id\":\"")@) == Some(e1));
    // id
    lemma_glue2(s, e1, e2, e3, escape_seq(v.id), seq!['"']);
    lemma_parse_string_ser(s, e1, v.id, s.subrange(e3, s.len() as int));
    assert(parse_string(s, e1) == Some((v.id, e3)));
    // name
    lemma_glue1(s, e3, e4, (",\"name\":\"")@);
    lemma_parse_lit_ser(s, e3, (",\"name\":\"")@, s.subrange(e4, s.len() as int));
    assert(parse_lit(s, e3, (",\"name\":\"")@) == Some(e4));
    lemma_glue2(s, e4, e5, e6, escape_seq(v.name), seq!['"']);
    lemma_parse_string_ser(s, e4, v.name, s.subrange(e6, s.len() as int));
    assert(parse_string(s, e4) == Some((v.name, e6)));
    // description
    lemma_glue1(s, e6, e7, (",\"description\":\"")@);
    lemma_parse_lit_ser(s, e6, (",\"description\":\"")@, s.subrange(e7, s.len() as int));
    assert(parse_lit(s, e6, (",\"description\":\"")@) == Some(e7));
    lemma_glue2(s, e7, e8, e9, escape_seq(v.description), seq!['"']);
    lemma_parse_string_ser(s, e7, v.description, s.subrange(e9, s.len() as int));
    assert(parse_string(s, e7) == Some((v.description, e9)));
    assert(e9 == ser_head_len(v));
    assert(parse_task(s) == parse_task_mid(s, e9, v.id, v.name, v.description));
}

#[verifier::rlimit(100)]
#[verifier::spinoff_prover]
proof fn lemma_round_trip_front2(v: TaskView)
    ensures
        parse_task_mid(ser_task(v), ser_head_len(v), v.id, v.name, v.description)
            == parse_task_tail(
            ser_task(v),
            ser_front_len(v),
            v.id,
            v.name,
            v.description,
            v.category,
            v.priority,
            v.task,
        ),
{
    let s = ser_task(v);
    let a1 = ("{\"id\":\"")@;
    let a2 = a1 + escape_seq(v.id);
    let a3 = a2 + seq!['"'];
    let a4 = a3 + (",\"name\":\"")@;
    let a5 = a4 + escape_seq(v.name);
    let a6 = a5 + seq!['"'];
    let a7 = a6 + (",\"description\":\"")@;
    let a8 = a7 + escape_seq(v.description);
    let a9 = a8 + seq!['"'];
    let a10 = a9 + (",\"category\":\"")@;
    let a11 = a10 + escape_seq(v.category);
    let a12 = a11 + seq!['"'];
    let a13 = a12 + (",\"priority\":\"")@;
    let a14 = a13 + escape_seq(v.priority);
    let a15 = a14 + seq!['"'];
    let a16 = a15 + (",\"task\":\"")@;
    let a17 = a16 + escape_seq(v.task);
    let a18 = a17 + seq!['"'];
    let e18 = a18.len() as int;
    assert(s.len() >= e18);
    assert(s.subrange(0, e18) =~= a18);
    lemma_peel_back(s, e18, a17, seq!['"']);
    let e17 = e18 - 1;
    lemma_peel_back(s, e17, a16, escape_seq(v.task));
    let e16 = e17 - escape_seq(v.task).len();
    lemma_peel_back(s, e16, a15, (",\"task\":\"")@);
    let e15 = e16 - (",\"task\":\"")@.len();
    lemma_peel_back(s, e15, a14, seq!['"']);
    let e14 = e15 - 1;
    lemma_peel_back(s, e14, a13, escape_seq(v.priority));
    let e13 = e14 - escape_seq(v.priority).len();
    lemma_peel_back(s, e13, a12, (",\"priority\":\"")@);
    let e12 = e13 - (",\"priority\":\"")@.len();
    lemma_peel_back(s, e12, a11, seq!['"']);
    let e11 = e12 - 1;
    lemma_peel_back(s, e11, a10, escape_seq(v.category));
    let e10 = e11 - escape_seq(v.category).len();
    lemma_peel_back(s, e10, a9, (",\"category\":\"")@);
    let e9 = e10 - (",\"category\":\"")@.len();
    assert(e9 == ser_head_len(v));
    // category
    lemma_glue1(s, e9, e10, (",\"category\":\"")@);
    lemma_parse_lit_ser(s, e9, (",\"category\":\"")@, s.subrange(e10, s.len() as int));
    assert(parse_lit(s, e9, (",\"category\":\"")@) == Some(e10));
    lemma_glue2(s, e10, e11, e12, escape_seq(v.category), seq!['"']);
    lemma_parse_string_ser(s, e10, v.category, s.subrange(e12, s.len() as int));
    assert(parse_string(s, e10) == Some((v.category, e12)));
    // priority
    lemma_glue1(s, e12, e13, (",\"priority\":\"")@);
    lemma_parse_lit_ser(s, e12, (",\"priority\":\"")@, s.subrange(e13, s.len() as int));
    assert(parse_lit(s, e12, (",\"priority\":\"")@) == Some(e13));
    lemma_glue2(s, e13, e14, e15, escape_seq(v.priority), seq!['"']);
    lemma_parse_string_ser(s, e13, v.priority, s.subrange(e15, s.len() as int));
    assert(parse_string(s, e13) == Some((v.priority, e15)));
    // task
    lemma_glue1(s, e15, e16, (",\"task\":\"")@);
    lemma_parse_lit_ser(s, e15, (",\"task\":\"")@, s.subrange(e16, s.len() as int));
    assert(parse_lit(s, e15, (",\"task\":\"")@) == Some(e16));
    lemma_glue2(s, e16, e17, e18, escape_seq(v.task), seq!['"']);
    lemma_parse_string_ser(s, e16, v.task, s.subrange(e18, s.len() as int));
    assert(parse_string(s, e16) == Some((v.task, e18)));
    assert(e18 == ser_front_len(v));
    assert(parse_task_mid(s, e9, v.id, v.name, v.description) == parse_task_tail(
        s,
        e18,
        v.id,
        v.name,
        v.description,
        v.category,
        v.priority,
        v.task,
    ));
}

#[verifier::rlimit(100)]
#[verifier::spinoff_prover]
proof fn lemma_round_trip_tail(v: TaskView)
    ensures
        parse_task_tail(
            ser_task(v),
            ser_front_len(v),
            v.id,
            v.name,
            v.description,
            v.category,
            v.priority,
            v.task,
        ) == Some(v),
{
    let s = ser_task(v);
    let a1 = ("{\"id\":\"")@;
    let a2 = a1 + escape_seq(v.id);
    let a3 = a2 + seq!['"'];
    let a4 = a3 + (",\"name\":\"")@;
    let a5 = a4 + escape_seq(v.name);
    let a6 = a5 + seq!['"'];
    let a7 = a6 + (",\"description\":\"")@;
    let a8 = a7 + escape_seq(v.description);
    let a9 = a8 + seq!['"'];
    let a10 = a9 + (",\"category\":\"")@;
    let a11 = a10 + escape_seq(v.category);
    let a12 = a11 + seq!['"'];
    let a13 = a12 + (",\"priority\":\"")@;
    let a14 = a13 + escape_seq(v.priority);
    let a15 = a14 + seq!['"'];
    let a16 = a15 + (",\"task\":\"")@;
    let a17 = a16 + escape_seq(v.task);
    let a18 = a17 + seq!['"'];
    let a19 = a18 + (",\"scheduled_at\":")@;
    let a20 = a19 + dec_digits(v.scheduled_at as nat);
    let a21 = a20 + (",\"cron_scheduled_at\":\"")@;
    let a22 = a21 + escape_seq(v.cron_scheduled_at);
    let a23 = a22 + seq!['"'];
    let a24 = a23 + (",\"args\":")@;
    let a25 = a24 + ser_args(v.args);
    assert(s == a25 + seq!['}']);
    assert(s.subrange(0, s.len() as int) =~= s);
    let e26 = s.len() as int;
    lemma_peel_back(s, e26, a25, seq!['}']);
    let e25 = e26 - 1;
    lemma_peel_back(s, e25, a24, ser_args(v.args));
    let e24 = e25 - ser_args(v.args).len();
    lemma_peel_back(s, e24, a23, (",\"args\":")@);
    let e23 = e24 - (",\"args\":")@.len();
    lemma_peel_back(s, e23, a22, seq!['"']);
    let e22 = e23 - 1;
    lemma_peel_back(s, e22, a21, escape_seq(v.cron_scheduled_at));
    let e21 = e22 - escape_seq(v.cron_scheduled_at).len();
    lemma_peel_back(s, e21, a20, (",\"cron_scheduled_at\":\"")@);
    let e20 = e21 - (",\"cron_scheduled_at\":\"")@.len();
    lemma_peel_back(s, e20, a19, dec_digits(v.scheduled_at as nat));
    let e19 = e20 - dec_digits(v.scheduled_at as nat).len();
    lemma_peel_back(s, e19, a18, (",\"scheduled_at\":")@);
    let e18 = e19 - (",\"scheduled_at\":")@.len();
    assert(e18 == a18.len());
    assert(e18 == ser_front_len(v));
    // scheduled_at
    lemma_glue1(s, e18, e19, (",\"scheduled_at\":")@);
    lemma_parse_lit_ser(s, e18, (",\"scheduled_at\":")@, s.subrange(e19, s.len() as int));
    assert(parse_lit(s, e18, (",\"scheduled_at\":")@) == Some(e19));
    lemma_glue1(s, e19, e20, dec_digits(v.scheduled_at as nat));
    reveal_strlit(",\"cron_scheduled_at\":\"");
    assert(s.subrange(e20, e21)[0] == s[e20]);
    assert(s[e20] == ',');
    assert(s.subrange(e20, s.len() as int).len() > 0);
    assert(s.subrange(e20, s.len() as int)[0] == s[e20]);
    lemma_parse_u64_ser(s, e19, v.scheduled_at, s.subrange(e20, s.len() as int));
    assert(parse_u64(s, e19) == Some((v.scheduled_at, e20)));
    // cron expression
    lemma_glue1(s, e20, e21, (",\"cron_scheduled_at\":\"")@);
    lemma_parse_lit_ser(s, e20, (",\"cron_scheduled_at\":\"")@, s.subrange(e21, s.len() as int));
    assert(parse_lit(s, e20, (",\"cron_scheduled_at\":\"")@) == Some(e21));
    lemma_glue2(s, e21, e22, e23, escape_seq(v.cron_scheduled_at), seq!['"']);
    lemma_parse_string_ser(s, e21, v.cron_scheduled_at, s.subrange(e23, s.len() as int));
    assert(parse_string(s, e21) == Some((v.cron_scheduled_at, e23)));
    // args
    lemma_glue1(s, e23, e24, (",\"args\":")@);
    lemma_parse_lit_ser(s, e23, (",\"args\":")@, s.subrange(e24, s.len() as int));
    assert(parse_lit(s, e23, (",\"args\":")@) == Some(e24));
    lemma_glue1(s, e24, e25, ser_args(v.args));
    lemma_parse_args_ser(s, e24, v.args, s.subrange(e25, s.len() as int));
    assert(parse_args(s, e24) == Some((v.args, e25)));
    // closing brace and end of input
    reveal_strlit("}");
    assert(("}")@ =~= seq!['}']);
    assert(s.subrange(e25, e26) == ("}")@);
    assert(parse_lit(s, e25, ("}")@) == Some(e26));
    assert(parse_task_tail(
        s,
        e18,
        v.id,
        v.name,
        v.description,
        v.category,
        v.priority,
        v.task,
    ) == Some(v));
}

/// Parsing inverts serialization: every task value comes back unchanged from
/// its JSON wire form.
pub proof fn lemma_json_round_trip(v: TaskView)
    ensures
        parse_task(ser_task(v)) == Some(v),
{
    lemma_round_trip_front1(v);
    lemma_round_trip_front2(v);
    lemma_round_trip_tail(v);
}

} // verus!
