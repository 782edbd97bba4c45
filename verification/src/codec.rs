//! The stored form of the analytics history: a small JSON object,
//! `{"records":[{"day":N,"mode":"L"},...]}`, rendered and parsed here by
//! verified code. Parsing the rendering of a history gives the history
//! back, which is proved below.

use vstd::prelude::*;
use vstd::string::*;
use crate::analytics::{Analytics, RecordView};
use crate::text;

verus! {

pub open spec fn lit_head() -> Seq<char> {
    "{\"records\":["@
}

pub open spec fn lit_tail() -> Seq<char> {
    "]}"@
}

pub open spec fn lit_day() -> Seq<char> {
    "{\"day\":"@
}

pub open spec fn lit_mode() -> Seq<char> {
    ",\"mode\":\""@
}

pub open spec fn lit_rec_end() -> Seq<char> {
    "\"}"@
}

pub open spec fn lit_comma() -> Seq<char> {
    ","@
}

/// The stored form of one record.
pub open spec fn json_record(r: RecordView) -> Seq<char> {
    lit_day() + text::dec_digits(r.day as nat) + lit_mode() + r.mode + lit_rec_end()
}

/// The stored form of a sequence of records, comma-separated.
pub open spec fn json_records(rs: Seq<RecordView>) -> Seq<char>
    decreases rs.len(),
{
    if rs.len() == 0 {
        Seq::empty()
    } else if rs.len() == 1 {
        json_record(rs[0])
    } else {
        json_record(rs[0]) + lit_comma() + json_records(rs.drop_first())
    }
}

/// The stored form of a whole history.
pub open spec fn json_analytics(rs: Seq<RecordView>) -> Seq<char> {
    lit_head() + json_records(rs) + lit_tail()
}

/// The first position at or after `i` holding something other than a
/// decimal digit (or the end of `s`).
pub open spec fn digits_end(s: Seq<char>, i: int) -> int
    decreases s.len() - i,
{
    if 0 <= i && i < s.len() && text::is_digit_char(s[i]) {
        digits_end(s, i + 1)
    } else {
        i
    }
}

/// The value of the digits `s[i..j]`, read as a decimal number.
pub open spec fn digits_value(s: Seq<char>, i: int, j: int) -> nat
    decreases j - i,
{
    if i < j {
        digits_value(s, i, j - 1) * 10 + text::digit_val(s[j - 1]) as nat
    } else {
        0
    }
}

/// The first position at or after `i` holding a double quote (or the end
/// of `s`).
pub open spec fn label_end(s: Seq<char>, i: int) -> int
    decreases s.len() - i,
{
    if 0 <= i && i < s.len() {
        if s[i] == '"' {
            i
        } else {
            label_end(s, i + 1)
        }
    } else {
        i
    }
}

/// Parse one stored record at position `i`: the record and the position
/// just past it.
pub open spec fn parse_record_at(s: Seq<char>, i: int) -> Option<(RecordView, int)> {
    if !text::matches_at(s, lit_day(), i) {
        None
    } else {
        let p = i + lit_day().len();
        let q = digits_end(s, p);
        if q == p {
            None
        } else if digits_value(s, p, q) > u64::MAX {
            None
        } else if !text::matches_at(s, lit_mode(), q) {
            None
        } else {
            let m0 = q + lit_mode().len();
            let m1 = label_end(s, m0);
            if m1 == s.len() {
                None
            } else if !text::matches_at(s, lit_rec_end(), m1) {
                None
            } else {
                Some(
                    (
                        RecordView {
                            day: digits_value(s, p, q) as int,
                            mode: s.subrange(m0, m1),
                        },
                        m1 + lit_rec_end().len(),
                    ),
                )
            }
        }
    }
}

/// Parse a comma-separated run of stored records at position `i`; `fuel`
/// bounds the recursion and is in surplus whenever it exceeds the number
/// of records present.
pub open spec fn parse_records_at(s: Seq<char>, i: int, fuel: nat) -> Option<
    (Seq<RecordView>, int),
>
    decreases fuel,
{
    if fuel == 0 {
        None
    } else {
        match parse_record_at(s, i) {
            None => None,
            Some((r, j)) => if text::matches_at(s, lit_comma(), j) {
                match parse_records_at(s, j + 1, (fuel - 1) as nat) {
                    None => None,
                    Some((rs, k)) => Some((seq![r] + rs, k)),
                }
            } else {
                Some((seq![r], j))
            },
        }
    }
}

/// Parse a whole stored history.
pub open spec fn parse_analytics(s: Seq<char>) -> Option<Seq<RecordView>> {
    if !text::matches_at(s, lit_head(), 0) {
        None
    } else {
        let i = lit_head().len() as int;
        if text::matches_at(s, lit_tail(), i) && s.len() == i + lit_tail().len() {
            Some(Seq::empty())
        } else {
            match parse_records_at(s, i, s.len() as nat) {
                None => None,
                Some((rs, j)) => if text::matches_at(s, lit_tail(), j) && s.len() == j
                    + lit_tail().len() {
                    Some(rs)
                } else {
                    None
                },
            }
        }
    }
}

/// Appending one record to a history appends its stored form (after a
/// comma, unless the history was empty).
proof fn lemma_json_records_push(rs: Seq<RecordView>, r: RecordView)
    ensures
        json_records(rs.push(r)) == if rs.len() == 0 {
            json_record(r)
        } else {
            json_records(rs) + lit_comma() + json_record(r)
        },
    decreases rs.len(),
{
    let p = rs.push(r);
    if rs.len() == 0 {
        assert(p.len() == 1);
        assert(p[0] == r);
    } else {
        assert(p.len() >= 2);
        assert(p[0] == rs[0]);
        assert(p.drop_first() =~= rs.drop_first().push(r));
        lemma_json_records_push(rs.drop_first(), r);
        if rs.len() == 1 {
            assert(rs.drop_first().len() == 0);
            assert(json_records(p) == json_record(rs[0]) + lit_comma() + json_record(r));
            assert(json_records(rs) == json_record(rs[0]));
        } else {
            assert(json_records(p) == json_record(p[0]) + lit_comma() + json_records(
                p.drop_first(),
            ));
            assert(json_records(p.drop_first()) == json_records(rs.drop_first()) + lit_comma()
                + json_record(r));
            assert(json_records(rs) == json_record(rs[0]) + lit_comma() + json_records(
                rs.drop_first(),
            ));
            assert((json_record(rs[0]) + lit_comma() + (json_records(rs.drop_first())
                + lit_comma() + json_record(r))) =~= (json_records(rs) + lit_comma()
                + json_record(r)));
        }
    }
}

impl Analytics {
    /// Render the history in its stored form.
    pub fn to_json(&self) -> (s: String)
        ensures
            s@ == json_analytics(self@),
    {
        let mut out = "{\"records\":[".to_owned();
        let n = self.records.len();
        let mut i: usize = 0;
        while i < n
            invariant
                0 <= i <= n,
                n == self.records@.len(),
                out@ == lit_head() + json_records(self@.take(i as int)),
            decreases n - i,
        {
            proof {
                assert(self@.take(i + 1) =~= self@.take(i as int).push(self@[i as int]));
                lemma_json_records_push(self@.take(i as int), self@[i as int]);
            }
            if i > 0 {
                out.append(",");
            }
            out.append("{\"day\":");
            let day_str = text::u64_to_dec(self.records[i].day);
            out.append(day_str.as_str());
            out.append(",\"mode\":\"");
            out.append(self.records[i].mode.as_str());
            out.append("\"}");
            proof {
                assert(self@[i as int] == self.records@[i as int]@);
                assert(out@ =~= lit_head() + json_records(self@.take(i + 1)));
            }
            i = i + 1;
        }
        out.append("]}");
        proof {
            assert(self@.take(n as int) =~= self@);
            assert(out@ =~= json_analytics(self@));
        }
        out
    }
}

/// What the renderer can faithfully store: day numbers that fit the record
/// type, and labels free of double quotes.
pub open spec fn encodable(rs: Seq<RecordView>) -> bool {
    forall|i: int| 0 <= i < rs.len() ==> {
        &&& 0 <= (#[trigger] rs[i]).day <= u64::MAX
        &&& forall|k: int| 0 <= k < rs[i].mode.len() ==> rs[i].mode[k] != '"'
    }
}

/// The mode labels the library stamps records with are free of double
/// quotes, so a history of its own records is always `encodable`.
pub proof fn lemma_mode_label_encodable(m: crate::timer::PomodoroMode)
    ensures
        forall|k: int| 0 <= k < crate::timer::mode_label(m).len()
            ==> crate::timer::mode_label(m)[k] != '"',
{
    reveal_strlit("Short (25/5)");
    reveal_strlit("Long (50/10)");
}

/// A maximal run of digits over `[a, b)` puts `digits_end` at `b`.
proof fn lemma_digit_run(s: Seq<char>, a: int, b: int)
    requires
        0 <= a <= b <= s.len(),
        forall|m: int| a <= m < b ==> text::is_digit_char(#[trigger] s[m]),
        b == s.len() || !text::is_digit_char(s[b]),
    ensures
        digits_end(s, a) == b,
    decreases b - a,
{
    if a < b {
        lemma_digit_run(s, a + 1, b);
    }
}

/// A quote-free run over `[a, b)` with a quote at `b` puts `label_end`
/// at `b`.
proof fn lemma_label_run(s: Seq<char>, a: int, b: int)
    requires
        0 <= a <= b < s.len(),
        forall|m: int| a <= m < b ==> #[trigger] s[m] != '"',
        s[b] == '"',
    ensures
        label_end(s, a) == b,
    decreases b - a,
{
    if a < b {
        lemma_label_run(s, a + 1, b);
    }
}

/// The digits of `n`'s decimal rendering, embedded in `s`, read back as
/// `n`.
proof fn lemma_digits_value_embed(s: Seq<char>, p: int, n: nat)
    requires
        0 <= p,
        p + text::dec_digits(n).len() <= s.len(),
        s.subrange(p, p + text::dec_digits(n).len() as int) == text::dec_digits(n),
    ensures
        digits_value(s, p, p + text::dec_digits(n).len()) == n,
    decreases n,
{
    let d = text::dec_digits(n);
    let dl = d.len() as int;
    assert forall|k: int| 0 <= k < dl implies s[p + k] == d[k] by {
        assert(s.subrange(p, p + dl)[k] == s[p + k]);
    }
    if n < 10 {
        assert(dl == 1);
        assert(d[0] == text::digit_char_of(n as int));
        assert(s[p + 0] == d[0]);
        assert(text::digit_val(text::digit_char_of(n as int)) == n);
        assert(digits_value(s, p, p + 1) == digits_value(s, p, p) * 10 + text::digit_val(s[p]));
    } else {
        let m = n / 10;
        let dm = text::dec_digits(m);
        assert(d == dm + seq![text::digit_char_of((n % 10) as int)]);
        assert forall|k: int| 0 <= k < dm.len() implies s.subrange(
            p,
            p + dm.len() as int,
        )[k] == dm[k] by {
            assert(s.subrange(p, p + dm.len() as int)[k] == s[p + k]);
            assert(s[p + k] == d[k]);
            assert(d[k] == dm[k]);
        }
        assert(s.subrange(p, p + dm.len() as int) =~= dm);
        lemma_digits_value_embed(s, p, m);
        assert(s[p + (dl - 1)] == d[dl - 1]);
        assert(d[dl - 1] == text::digit_char_of((n % 10) as int));
        assert(text::digit_val(text::digit_char_of((n % 10) as int)) == n % 10);
        assert(digits_value(s, p, p + dl) == digits_value(s, p, p + dl - 1) * 10
            + text::digit_val(s[p + dl - 1]));
        assert(digits_value(s, p, p + dl) == m * 10 + n % 10);
    }
}

/// A record's rendering, embedded in `s`, parses back to the record.
proof fn lemma_parse_record_embed(s: Seq<char>, i: int, r: RecordView)
    requires
        0 <= i,
        i + json_record(r).len() <= s.len(),
        s.subrange(i, i + json_record(r).len() as int) == json_record(r),
        0 <= r.day <= u64::MAX,
        forall|k: int| 0 <= k < r.mode.len() ==> r.mode[k] != '"',
    ensures
        parse_record_at(s, i) == Some((r, i + json_record(r).len())),
{
    reveal_strlit("{\"day\":");
    reveal_strlit(",\"mode\":\"");
    reveal_strlit("\"}");
    let jr = json_record(r);
    let jl = jr.len() as int;
    let d = text::dec_digits(r.day as nat);
    let dl = d.len() as int;
    let ml = r.mode.len() as int;
    text::lemma_dec_digits_are_digits(r.day as nat);
    assert(jl == 7 + dl + 9 + ml + 2);
    assert forall|k: int| 0 <= k < jl implies s[i + k] == jr[k] by {
        assert(s.subrange(i, i + jl)[k] == s[i + k]);
    }
    // the leading literal
    assert forall|k: int| 0 <= k < 7 implies s.subrange(i, i + 7)[k] == lit_day()[k] by {
        assert(s.subrange(i, i + 7)[k] == s[i + k]);
        assert(jr[k] == lit_day()[k]);
    }
    assert(s.subrange(i, i + 7) =~= lit_day());
    assert(text::matches_at(s, lit_day(), i));
    // the digits and the comma after them
    let p = i + 7;
    assert forall|m: int| p <= m < p + dl implies text::is_digit_char(#[trigger] s[m]) by {
        assert(s[i + (m - i)] == jr[m - i]);
        assert(jr[m - i] == d[m - p]);
    }
    assert(s[i + (7 + dl)] == jr[7 + dl]);
    assert(jr[7 + dl] == lit_mode()[0]);
    assert(lit_mode()[0] == ',');
    assert(!text::is_digit_char(','));
    assert(p + dl == i + (7 + dl));
    lemma_digit_run(s, p, p + dl);
    let q = p + dl;
    assert(digits_end(s, p) == q);
    assert(q != p);
    assert forall|k: int| 0 <= k < dl implies s.subrange(p, p + dl)[k] == d[k] by {
        assert(s.subrange(p, p + dl)[k] == s[p + k]);
        assert(s[i + (7 + k)] == jr[7 + k]);
        assert(jr[7 + k] == d[k]);
        assert(p + k == i + (7 + k));
    }
    assert(s.subrange(p, p + dl) =~= d);
    lemma_digits_value_embed(s, p, r.day as nat);
    assert(digits_value(s, p, q) == r.day);
    // the mode literal
    assert forall|k: int| 0 <= k < 9 implies s.subrange(q, q + 9)[k] == lit_mode()[k] by {
        assert(s.subrange(q, q + 9)[k] == s[q + k]);
        assert(s[i + (7 + dl + k)] == jr[7 + dl + k]);
        assert(jr[7 + dl + k] == lit_mode()[k]);
        assert(q + k == i + (7 + dl + k));
    }
    assert(s.subrange(q, q + 9) =~= lit_mode());
    assert(text::matches_at(s, lit_mode(), q));
    // the label and its closing quote
    let m0 = q + 9;
    assert forall|m: int| m0 <= m < m0 + ml implies #[trigger] s[m] != '"' by {
        assert(s[i + (m - i)] == jr[m - i]);
        assert(jr[m - i] == r.mode[m - m0]);
    }
    assert(s[i + (7 + dl + 9 + ml)] == jr[7 + dl + 9 + ml]);
    assert(jr[7 + dl + 9 + ml] == lit_rec_end()[0]);
    assert(lit_rec_end()[0] == '"');
    assert(m0 + ml == i + (7 + dl + 9 + ml));
    lemma_label_run(s, m0, m0 + ml);
    let m1 = m0 + ml;
    assert(label_end(s, m0) == m1);
    assert(m1 + 2 <= s.len());
    assert(m1 != s.len());
    // the closing literal
    assert forall|k: int| 0 <= k < 2 implies s.subrange(m1, m1 + 2)[k] == lit_rec_end()[k] by {
        assert(s.subrange(m1, m1 + 2)[k] == s[m1 + k]);
        assert(s[i + (7 + dl + 9 + ml + k)] == jr[7 + dl + 9 + ml + k]);
        assert(jr[7 + dl + 9 + ml + k] == lit_rec_end()[k]);
        assert(m1 + k == i + (7 + dl + 9 + ml + k));
    }
    assert(s.subrange(m1, m1 + 2) =~= lit_rec_end());
    assert(text::matches_at(s, lit_rec_end(), m1));
    // and the record itself
    assert forall|k: int| 0 <= k < ml implies s.subrange(m0, m1)[k] == r.mode[k] by {
        assert(s.subrange(m0, m1)[k] == s[m0 + k]);
        assert(s[i + (7 + dl + 9 + k)] == jr[7 + dl + 9 + k]);
        assert(jr[7 + dl + 9 + k] == r.mode[k]);
        assert(m0 + k == i + (7 + dl + 9 + k));
    }
    assert(s.subrange(m0, m1) =~= r.mode);
    assert(parse_record_at(s, i) == Some(
        (RecordView { day: digits_value(s, p, q) as int, mode: s.subrange(m0, m1) }, m1 + 2),
    ));
}

/// The rendering of a history is never shorter than the history.
proof fn lemma_json_records_min_len(rs: Seq<RecordView>)
    ensures
        json_records(rs).len() >= rs.len(),
        rs.len() >= 1 ==> json_records(rs).len() >= 18,
    decreases rs.len(),
{
    reveal_strlit("{\"day\":");
    reveal_strlit(",\"mode\":\"");
    reveal_strlit("\"}");
    reveal_strlit(",");
    if rs.len() == 1 {
        assert(json_record(rs[0]).len() == 7 + text::dec_digits(
            rs[0].day as nat,
        ).len() + 9 + rs[0].mode.len() + 2);
    } else if rs.len() >= 2 {
        lemma_json_records_min_len(rs.drop_first());
        assert(json_record(rs[0]).len() >= 18);
    }
}

/// A history's rendering, embedded in `s` and not followed by a comma,
/// parses back to the history.
proof fn lemma_parse_records_embed(s: Seq<char>, i: int, rs: Seq<RecordView>, fuel: nat)
    requires
        rs.len() >= 1,
        fuel > rs.len(),
        encodable(rs),
        0 <= i,
        i + json_records(rs).len() <= s.len(),
        s.subrange(i, i + json_records(rs).len() as int) == json_records(rs),
        i + json_records(rs).len() == s.len() || s[i + json_records(rs).len()] != ',',
    ensures
        parse_records_at(s, i, fuel) == Some((rs, i + json_records(rs).len())),
    decreases rs.len(),
{
    reveal_strlit(",");
    let jrs = json_records(rs);
    let jrsl = jrs.len() as int;
    let jr0 = json_record(rs[0]);
    let j0 = jr0.len() as int;
    assert forall|k: int| 0 <= k < jrsl implies s[i + k] == jrs[k] by {
        assert(s.subrange(i, i + jrsl)[k] == s[i + k]);
    }
    if rs.len() == 1 {
        assert(jrs == jr0);
        assert(s.subrange(i, i + j0) =~= jr0);
        lemma_parse_record_embed(s, i, rs[0]);
        let j = i + j0;
        if text::matches_at(s, lit_comma(), j) {
            assert(s.subrange(j, j + 1)[0] == s[j]);
            assert(s[j] == ',');
            assert(false);
        }
        assert(seq![rs[0]] =~= rs);
    } else {
        assert(jrs == jr0 + lit_comma() + json_records(rs.drop_first()));
        assert(s.subrange(i, i + j0) =~= jr0);
        lemma_parse_record_embed(s, i, rs[0]);
        let j = i + j0;
        assert(s[j] == jrs[j0]);
        assert(jrs[j0] == ',');
        assert(s.subrange(j, j + 1) =~= lit_comma());
        assert(text::matches_at(s, lit_comma(), j));
        let rest = rs.drop_first();
        let jrest = json_records(rest);
        assert forall|k: int| 0 <= k < jrest.len() implies s.subrange(
            j + 1,
            j + 1 + jrest.len() as int,
        )[k] == jrest[k] by {
            assert(s.subrange(j + 1, j + 1 + jrest.len() as int)[k] == s[j + 1 + k]);
            assert(s[j + 1 + k] == jrs[j0 + 1 + k]);
        }
        assert(s.subrange(j + 1, j + 1 + jrest.len() as int) =~= jrest);
        assert(encodable(rest)) by {
            assert(forall|m: int| 0 <= m < rest.len() ==> rest[m] == rs[m + 1]);
        }
        lemma_parse_records_embed(s, j + 1, rest, (fuel - 1) as nat);
        assert(seq![rs[0]] + rest =~= rs);
    }
}

/// Parsing the rendering of a history gives the history back, exactly.
pub proof fn lemma_parse_of_render(rs: Seq<RecordView>)
    requires
        encodable(rs),
    ensures
        parse_analytics(json_analytics(rs)) == Some(rs),
{
    reveal_strlit("{\"records\":[");
    reveal_strlit("]}");
    let s = json_analytics(rs);
    let jrs = json_records(rs);
    let jrsl = jrs.len() as int;
    assert(s.len() == 12 + jrsl + 2);
    assert(s.subrange(0, 12) =~= lit_head());
    assert(text::matches_at(s, lit_head(), 0));
    if rs.len() == 0 {
        assert(jrsl == 0);
        assert(s.subrange(12, 14) =~= lit_tail());
        assert(text::matches_at(s, lit_tail(), 12));
        assert(parse_analytics(s) == Some(Seq::<RecordView>::empty()));
        assert(Seq::<RecordView>::empty() =~= rs);
    } else {
        lemma_json_records_min_len(rs);
        assert(s.len() != 14);
        assert forall|k: int| 0 <= k < jrsl implies s.subrange(12, 12 + jrsl)[k] == jrs[k] by {
            assert(s.subrange(12, 12 + jrsl)[k] == s[12 + k]);
            assert(s[12 + k] == jrs[k]);
        }
        assert(s.subrange(12, 12 + jrsl) =~= jrs);
        let j = 12 + jrsl;
        assert(s[j] == lit_tail()[0]);
        assert(lit_tail()[0] == ']');
        assert(s[j] != ',');
        lemma_parse_records_embed(s, 12, rs, s.len() as nat);
        assert(s.subrange(j, j + 2) =~= lit_tail());
        assert(text::matches_at(s, lit_tail(), j));
        assert(s.len() == j + 2);
    }
}

/// Shorter digit runs have at most the value of longer ones starting at
/// the same place.
proof fn lemma_digits_value_monotone(s: Seq<char>, a: int, k: int, q: int)
    requires
        a <= k <= q,
    ensures
        digits_value(s, a, k) <= digits_value(s, a, q),
    decreases q - k,
{
    if k < q {
        lemma_digits_value_monotone(s, a, k, q - 1);
    }
}

/// Scan the digits at position `p`: where they end, and their value if it
/// fits a `u64`.
fn scan_number(s: &str, p: usize) -> (r: (usize, Option<u64>))
    requires
        p <= s@.len(),
    ensures
        r.0 == digits_end(s@, p as int),
        p <= r.0 <= s@.len(),
        r.1 matches Some(v) ==> digits_value(s@, p as int, r.0 as int) == v,
        r.1 is None ==> digits_value(s@, p as int, r.0 as int) > u64::MAX,
{
    let n = s.unicode_len();
    let mut q = p;
    loop
        invariant
            p <= q <= n,
            n == s@.len(),
            digits_end(s@, p as int) == digits_end(s@, q as int),
        ensures
            p <= q <= n,
            digits_end(s@, p as int) == q,
        decreases n - q,
    {
        if q >= n {
            break;
        }
        let c = s.get_char(q);
        if !(c >= '0' && c <= '9') {
            break;
        }
        q = q + 1;
    }
    let ghost de = digits_end(s@, p as int);
    proof {
        lemma_digits_end_run(s@, p as int);
    }
    let mut val: u64 = 0;
    let mut k = p;
    while k < q
        invariant
            p <= k <= q <= n,
            n == s@.len(),
            q == digits_end(s@, p as int),
            forall|m: int| p <= m < q ==> text::is_digit_char(#[trigger] s@[m]),
            val == digits_value(s@, p as int, k as int),
        decreases q - k,
    {
        let c = s.get_char(k);
        let d = text::digit_value(c);
        let stepped = match val.checked_mul(10) {
            None => None,
            Some(v) => v.checked_add(d),
        };
        match stepped {
            None => {
                proof {
                    assert(digits_value(s@, p as int, k + 1) == val * 10 + text::digit_val(
                        s@[k as int],
                    ));
                    lemma_digits_value_monotone(s@, p as int, k + 1, q as int);
                }
                return (q, None);
            },
            Some(v) => {
                val = v;
            },
        }
        k = k + 1;
    }
    (q, Some(val))
}

/// Every position before `digits_end` holds a digit.
proof fn lemma_digits_end_run(s: Seq<char>, i: int)
    requires
        0 <= i <= s.len(),
    ensures
        i <= digits_end(s, i) <= s.len(),
        forall|m: int| i <= m < digits_end(s, i) ==> text::is_digit_char(#[trigger] s[m]),
    decreases s.len() - i,
{
    if i < s.len() && text::is_digit_char(s[i]) {
        lemma_digits_end_run(s, i + 1);
    }
}

/// Parse one stored record at `i`, as `parse_record_at` describes.
fn parse_record(s: &str, i: usize) -> (r: Option<(crate::analytics::PomodoroRecord, usize)>)
    requires
        i <= s@.len(),
    ensures
        match r {
            None => parse_record_at(s@, i as int) is None,
            Some((rec, j)) => {
                &&& parse_record_at(s@, i as int) == Some((rec@, j as int))
                &&& i < j <= s@.len()
            },
        },
{
    let n = s.unicode_len();
    if !text::lit_at(s, i, "{\"day\":") {
        return None;
    }
    proof {
        assert(lit_day().len() == 7) by {
            reveal_strlit("{\"day\":");
        }
    }
    let p = i + 7;
    let (q, maybe_val) = scan_number(s, p);
    if q == p {
        return None;
    }
    let val = match maybe_val {
        None => {
            return None;
        },
        Some(v) => v,
    };
    if !text::lit_at(s, q, ",\"mode\":\"") {
        return None;
    }
    proof {
        assert(lit_mode().len() == 9) by {
            reveal_strlit(",\"mode\":\"");
        }
    }
    let m0 = q + 9;
    let mut m1 = m0;
    loop
        invariant
            m0 <= m1 <= n,
            n == s@.len(),
            label_end(s@, m0 as int) == label_end(s@, m1 as int),
        ensures
            m0 <= m1 <= n,
            label_end(s@, m0 as int) == m1,
        decreases n - m1,
    {
        if m1 >= n {
            break;
        }
        if s.get_char(m1) == '"' {
            break;
        }
        m1 = m1 + 1;
    }
    if m1 == n {
        return None;
    }
    if !text::lit_at(s, m1, "\"}") {
        return None;
    }
    proof {
        assert(lit_rec_end().len() == 2) by {
            reveal_strlit("\"}");
        }
    }
    let label = s.substring_char(m0, m1).to_owned();
    let record = crate::analytics::PomodoroRecord { day: val, mode: label };
    Some((record, m1 + 2))
}

/// Parse a run of stored records at `i`, as `parse_records_at` describes.
fn parse_records(s: &str, i: usize, fuel: usize) -> (r: Option<
    (Vec<crate::analytics::PomodoroRecord>, usize),
>)
    requires
        i <= s@.len(),
        s@.len() <= usize::MAX,
    ensures
        match r {
            None => parse_records_at(s@, i as int, fuel as nat) is None,
            Some((v, j)) => {
                &&& parse_records_at(s@, i as int, fuel as nat) == Some(
                    (v@.map_values(|x: crate::analytics::PomodoroRecord| x@), j as int),
                )
                &&& j <= s@.len()
            },
        },
    decreases fuel,
{
    if fuel == 0 {
        return None;
    }
    match parse_record(s, i) {
        None => None,
        Some((rec, j)) => {
            if text::lit_at(s, j, ",") {
                proof {
                    assert(lit_comma().len() == 1) by {
                        reveal_strlit(",");
                    }
                }
                match parse_records(s, j + 1, fuel - 1) {
                    None => None,
                    Some((mut v, k)) => {
                        let ghost tail = v@.map_values(
                            |x: crate::analytics::PomodoroRecord| x@,
                        );
                        v.insert(0, rec);
                        proof {
                            assert(v@.map_values(|x: crate::analytics::PomodoroRecord| x@)
                                =~= seq![rec@] + tail);
                        }
                        Some((v, k))
                    },
                }
            } else {
                let mut v: Vec<crate::analytics::PomodoroRecord> = Vec::new();
                v.push(rec);
                proof {
                    assert(v@.map_values(|x: crate::analytics::PomodoroRecord| x@)
                        =~= seq![rec@]);
                }
                Some((v, j))
            }
        },
    }
}

impl Analytics {
    /// Parse a stored history, as `parse_analytics` describes: `None` on
    /// anything but a well-formed rendering.
    pub fn from_json(s: &str) -> (r: Option<Analytics>)
        ensures
            match r {
                None => parse_analytics(s@) is None,
                Some(a) => parse_analytics(s@) == Some(a@),
            },
    {
        let n = s.unicode_len();
        if !text::lit_at(s, 0, "{\"records\":[") {
            return None;
        }
        proof {
            assert(lit_head().len() == 12) by {
                reveal_strlit("{\"records\":[");
            }
            assert(lit_tail().len() == 2) by {
                reveal_strlit("]}");
            }
        }
        if text::lit_at(s, 12, "]}") && n == 14 {
            let empty = Analytics { records: Vec::new() };
            proof {
                assert(empty@ =~= Seq::<RecordView>::empty());
            }
            return Some(empty);
        }
        match Self::parse_records_from(s, n) {
            None => None,
            Some((v, j)) => {
                if text::lit_at(s, j, "]}") && n - j == 2 {
                    Some(Analytics { records: v })
                } else {
                    None
                }
            },
        }
    }

    /// Parsing a rendering restores the record count in particular; a
    /// convenience face of `lemma_parse_of_render`.
    pub proof fn lemma_json_round_trip(rs: Seq<RecordView>)
        requires
            encodable(rs),
        ensures
            parse_analytics(json_analytics(rs)) == Some(rs),
    {
        lemma_parse_of_render(rs);
    }

    /// The record-list part of `from_json`, split off for clarity.
    fn parse_records_from(s: &str, n: usize) -> (r: Option<
        (Vec<crate::analytics::PomodoroRecord>, usize),
    >)
        requires
            n == s@.len(),
            12 <= n,
        ensures
            match r {
                None => parse_records_at(s@, 12, s@.len() as nat) is None,
                Some((v, j)) => {
                    &&& parse_records_at(s@, 12, s@.len() as nat) == Some(
                        (v@.map_values(|x: crate::analytics::PomodoroRecord| x@), j as int),
                    )
                    &&& j <= s@.len()
                },
            },
    {
        parse_records(s, 12, n)
    }
}

} // verus!
