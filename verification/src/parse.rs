//! Parsing of schedule configuration strings.
//!
//! A schedule arrives as a comma-separated list of hours ("8, 9, 20"). Each
//! comma-separated token, once stripped of surrounding whitespace, must be
//! one or more decimal digits whose value fits in a byte; otherwise the whole
//! string is malformed. The configuration pathway never fails on a malformed
//! string: it falls back to the empty schedule, which is never active.

use vstd::prelude::*;

use crate::light::LightHours;

verus! {

/// Whitespace stripped around a token.
pub open spec fn is_ws(c: char) -> bool {
    c == ' ' || c == '\t' || c == '\n' || c == '\r'
}

/// A decimal digit.
pub open spec fn is_digit_char(c: char) -> bool {
    48 <= c as u32 <= 57
}

/// The numeric value of a decimal digit.
pub open spec fn digit_val(c: char) -> int {
    c as u32 - 48
}

/// `s` with leading whitespace stripped.
pub open spec fn trim_front(s: Seq<char>) -> Seq<char>
    decreases s.len(),
{
    if s.len() > 0 && is_ws(s[0]) {
        trim_front(s.drop_first())
    } else {
        s
    }
}

/// `s` with trailing whitespace stripped.
pub open spec fn trim_back(s: Seq<char>) -> Seq<char>
    decreases s.len(),
{
    if s.len() > 0 && is_ws(s.last()) {
        trim_back(s.drop_last())
    } else {
        s
    }
}

/// `s` with surrounding whitespace stripped.
pub open spec fn spec_trim(s: Seq<char>) -> Seq<char> {
    trim_back(trim_front(s))
}

/// Every character of `s` is a decimal digit.
pub open spec fn all_digits(s: Seq<char>) -> bool {
    forall|i: int| 0 <= i < s.len() ==> is_digit_char(#[trigger] s[i])
}

/// The value of a sequence of decimal digits, most significant first.
pub open spec fn digits_val(s: Seq<char>) -> int
    decreases s.len(),
{
    if s.len() == 0 {
        0
    } else {
        digits_val(s.drop_last()) * 10 + digit_val(s.last())
    }
}

/// The parse of one comma-separated token: stripped of surrounding
/// whitespace it must be one or more decimal digits, and their value must
/// fit in a byte.
pub open spec fn spec_parse_token(t: Seq<char>) -> Option<u8> {
    let d = spec_trim(t);
    if d.len() > 0 && all_digits(d) && digits_val(d) <= 255 {
        Some(digits_val(d) as u8)
    } else {
        None
    }
}

/// `s` split at every comma: one (possibly empty) segment per stretch
/// between commas, always one more segment than there are commas.
pub open spec fn spec_split_commas(s: Seq<char>) -> Seq<Seq<char>>
    decreases s.len(),
{
    if s.len() == 0 {
        seq![Seq::<char>::empty()]
    } else {
        let rest = spec_split_commas(s.drop_first());
        if s[0] == ',' {
            seq![Seq::<char>::empty()] + rest
        } else {
            seq![seq![s[0]] + rest[0]] + rest.drop_first()
        }
    }
}

/// The parse of a whole schedule string: the hour values of its tokens, in
/// order, provided every token parses.
pub open spec fn spec_parse_hours(s: Seq<char>) -> Option<Seq<u8>> {
    let toks = spec_split_commas(s);
    if forall|i: int| 0 <= i < toks.len() ==> spec_parse_token(#[trigger] toks[i]) is Some {
        Some(Seq::new(toks.len(), |i: int| spec_parse_token(toks[i])->0))
    } else {
        None
    }
}

/// Stripping leading whitespace keeps the suffix that starts at the first
/// non-whitespace character.
proof fn lemma_trim_front_skip(s: Seq<char>, a: int)
    requires
        0 <= a <= s.len(),
        forall|j: int| 0 <= j < a ==> is_ws(#[trigger] s[j]),
        a < s.len() ==> !is_ws(s[a]),
    ensures
        trim_front(s) == s.skip(a),
    decreases a,
{
    if a == 0 {
        assert(trim_front(s) =~= s.skip(0));
    } else {
        lemma_trim_front_skip(s.drop_first(), a - 1);
        assert(s.drop_first().skip(a - 1) =~= s.skip(a));
    }
}

/// Stripping trailing whitespace keeps the prefix that ends at the last
/// non-whitespace character.
proof fn lemma_trim_back_take(s: Seq<char>, b: int)
    requires
        0 <= b <= s.len(),
        forall|j: int| b <= j < s.len() ==> is_ws(#[trigger] s[j]),
        b > 0 ==> !is_ws(s[b - 1]),
    ensures
        trim_back(s) == s.take(b),
    decreases s.len() - b,
{
    if b == s.len() {
        assert(trim_back(s) =~= s.take(b));
    } else {
        lemma_trim_back_take(s.drop_last(), b);
        assert(s.drop_last().take(b) =~= s.take(b));
    }
}

/// A digit sequence whose value already exceeds a byte only grows when a
/// digit is appended.
proof fn lemma_digits_val_grows(s: Seq<char>, c: char)
    requires
        digits_val(s) > 255,
        0 <= digit_val(c),
    ensures
        digits_val(s.push(c)) > 255,
{
    assert(s.push(c).drop_last() =~= s);
    assert(s.push(c).last() == c);
}

/// Checks for a decimal digit and yields its value.
fn digit_of(c: char) -> (r: Option<u8>)
    ensures
        r is Some <==> is_digit_char(c),
        r is Some ==> r->0 == digit_val(c),
{
    let cv = c as u32;
    if 48 <= cv && cv <= 57 {
        Some((cv - 48) as u8)
    } else {
        None
    }
}

/// Whether `c` is whitespace that trimming strips.
fn is_ws_char(c: char) -> (b: bool)
    ensures
        b == is_ws(c),
{
    c == ' ' || c == '\t' || c == '\n' || c == '\r'
}

/// Parses one token: whitespace-trimmed decimal digits valued at most 255.
fn parse_token(t: &str) -> (r: Option<u8>)
    ensures
        r == spec_parse_token(t@),
{
    let n = t.unicode_len();
    // First non-whitespace character.
    let mut a: usize = 0;
    loop
        invariant_except_break
            a <= n,
            n == t@.len(),
            forall|j: int| 0 <= j < a ==> is_ws(#[trigger] t@[j]),
        invariant
            n == t@.len(),
        ensures
            0 <= a <= n,
            forall|j: int| 0 <= j < a ==> is_ws(#[trigger] t@[j]),
            a < n ==> !is_ws(t@[a as int]),
        decreases n - a,
    {
        if a == n {
            break;
        }
        if !is_ws_char(t.get_char(a)) {
            break;
        }
        a += 1;
    }
    // One past the last non-whitespace character, at or after `a`.
    let mut b: usize = n;
    loop
        invariant_except_break
            a <= b <= n,
            n == t@.len(),
            forall|j: int| b <= j < n ==> is_ws(#[trigger] t@[j]),
        invariant
            n == t@.len(),
        ensures
            a <= b <= n,
            forall|j: int| b <= j < n ==> is_ws(#[trigger] t@[j]),
            b > a ==> !is_ws(t@[b - 1]),
        decreases b,
    {
        if b == a {
            break;
        }
        if !is_ws_char(t.get_char(b - 1)) {
            break;
        }
        b -= 1;
    }
    proof {
        lemma_trim_front_skip(t@, a as int);
        if b > a {
            assert forall|j: int| b - a <= j < t@.skip(a as int).len() implies is_ws(
                #[trigger] t@.skip(a as int)[j],
            ) by {
                assert(t@.skip(a as int)[j] == t@[j + a]);
            }
            lemma_trim_back_take(t@.skip(a as int), b - a);
        } else {
            assert(b == a);
            assert forall|j: int| 0 <= j < t@.skip(a as int).len() implies is_ws(
                #[trigger] t@.skip(a as int)[j],
            ) by {
                assert(t@.skip(a as int)[j] == t@[j + a]);
            }
            lemma_trim_back_take(t@.skip(a as int), 0);
        }
        assert(spec_trim(t@) =~= t@.subrange(a as int, b as int));
    }
    if b == a {
        // Empty once trimmed: malformed.
        return None;
    }
    // Scan the digits, keeping the exact value while it still fits in a
    // byte and saturating at 256 once it cannot.
    let mut acc: u32 = 0;
    let mut j: usize = a;
    while j < b
        invariant
            a <= j <= b <= n,
            n == t@.len(),
            spec_trim(t@) == t@.subrange(a as int, b as int),
            all_digits(t@.subrange(a as int, j as int)),
            acc <= 256,
            digits_val(t@.subrange(a as int, j as int)) <= 255 ==> acc == digits_val(
                t@.subrange(a as int, j as int),
            ),
            digits_val(t@.subrange(a as int, j as int)) > 255 ==> acc == 256,
            digits_val(t@.subrange(a as int, j as int)) >= 0,
        decreases b - j,
    {
        let c = t.get_char(j);
        let ghost pre = t@.subrange(a as int, j as int);
        match digit_of(c) {
            Some(d) => {
                proof {
                    assert(t@.subrange(a as int, j + 1) =~= pre.push(c));
                    assert(pre.push(c).drop_last() =~= pre);
                    assert(pre.push(c).last() == c);
                    assert(digits_val(pre.push(c)) == digits_val(pre) * 10 + digit_val(c));
                    if digits_val(pre) > 255 {
                        lemma_digits_val_grows(pre, c);
                    }
                }
                let next = acc * 10 + (d as u32);
                if next > 255 {
                    acc = 256;
                } else {
                    acc = next;
                }
            },
            None => {
                proof {
                    assert(!is_digit_char(t@.subrange(a as int, b as int)[j - a]));
                    assert(!all_digits(spec_trim(t@)));
                }
                return None;
            },
        }
        j += 1;
    }
    proof {
        assert(t@.subrange(a as int, j as int) =~= spec_trim(t@));
        assert(spec_trim(t@).len() > 0);
    }
    if acc <= 255 {
        Some(acc as u8)
    } else {
        None
    }
}

/// Splitting at commas takes everything before the first comma as the first
/// segment, then splits the remainder after that comma.
proof fn lemma_split_at_first_comma(s: Seq<char>, i: int)
    requires
        0 <= i <= s.len(),
        forall|j: int| 0 <= j < i ==> s[j] != ',',
        i < s.len() ==> s[i] == ',',
    ensures
        i == s.len() ==> spec_split_commas(s) == seq![s],
        i < s.len() ==> spec_split_commas(s) == seq![s.take(i)] + spec_split_commas(s.skip(i + 1)),
    decreases s.len(),
{
    if s.len() == 0 {
        assert(spec_split_commas(s) =~~= seq![s]);
    } else if i == 0 {
        assert(s.take(0) =~= Seq::<char>::empty());
        assert(s.skip(1) =~= s.drop_first());
        assert(spec_split_commas(s) =~~= seq![s.take(0)] + spec_split_commas(s.skip(1)));
    } else {
        let rest = spec_split_commas(s.drop_first());
        assert forall|j: int| 0 <= j < i - 1 implies s.drop_first()[j] != ',' by {
            assert(s.drop_first()[j] == s[j + 1]);
        }
        lemma_split_at_first_comma(s.drop_first(), i - 1);
        if i == s.len() {
            assert(rest == seq![s.drop_first()]);
            assert(seq![s[0]] + rest[0] =~= s);
            assert(rest.drop_first() =~= Seq::<Seq<char>>::empty());
            assert(spec_split_commas(s) =~~= seq![s]);
        } else {
            let tail = spec_split_commas(s.skip(i + 1));
            assert(s.drop_first().skip(i) =~= s.skip(i + 1));
            assert(rest == seq![s.drop_first().take(i - 1)] + tail);
            assert(rest[0] == s.drop_first().take(i - 1));
            assert(seq![s[0]] + s.drop_first().take(i - 1) =~= s.take(i));
            assert(rest.drop_first() =~= tail);
            assert(spec_split_commas(s) =~~= seq![s.take(i)] + tail);
        }
    }
}

/// The parse of a whole string, read off its first token: everything parses
/// iff the first token does and the remainder after the first comma does,
/// and the values are the first token's followed by the remainder's.
proof fn lemma_parse_hours_head(s: Seq<char>, i: int)
    requires
        0 <= i <= s.len(),
        forall|j: int| 0 <= j < i ==> s[j] != ',',
        i < s.len() ==> s[i] == ',',
    ensures
        i == s.len() ==> ((spec_parse_hours(s) is Some) <==> (spec_parse_token(s) is Some)),
        i == s.len() && spec_parse_token(s) is Some ==> spec_parse_hours(s)->0 == seq![
            spec_parse_token(s)->0,
        ],
        i < s.len() ==> ((spec_parse_hours(s) is Some) <==> (spec_parse_token(s.take(i)) is Some
            && spec_parse_hours(s.skip(i + 1)) is Some)),
        i < s.len() && spec_parse_hours(s) is Some ==> spec_parse_hours(s)->0 == seq![
            spec_parse_token(s.take(i))->0,
        ] + spec_parse_hours(s.skip(i + 1))->0,
{
    lemma_split_at_first_comma(s, i);
    let toks = spec_split_commas(s);
    if i == s.len() {
        assert(toks == seq![s]);
        assert(toks[0] == s);
        if spec_parse_token(s) is Some {
            assert forall|k: int| 0 <= k < toks.len() implies spec_parse_token(
                #[trigger] toks[k],
            ) is Some by {
                assert(toks[k] == s);
            }
            assert(spec_parse_hours(s)->0 =~= seq![spec_parse_token(s)->0]);
        }
    } else {
        let tail_toks = spec_split_commas(s.skip(i + 1));
        assert(toks == seq![s.take(i)] + tail_toks);
        assert(toks.len() == 1 + tail_toks.len());
        assert(toks[0] == s.take(i));
        assert forall|k: int| 0 <= k < tail_toks.len() implies #[trigger] toks[k + 1]
            == tail_toks[k] by {
            assert(toks[k + 1] == (seq![s.take(i)] + tail_toks)[k + 1]);
        }
        if spec_parse_token(s.take(i)) is Some && spec_parse_hours(s.skip(i + 1)) is Some {
            assert forall|k: int| 0 <= k < toks.len() implies spec_parse_token(
                #[trigger] toks[k],
            ) is Some by {
                if k > 0 {
                    assert(toks[k] == tail_toks[k - 1]);
                    assert(spec_parse_token(tail_toks[k - 1]) is Some);
                }
            }
            assert(spec_parse_hours(s) is Some);
            assert(spec_parse_hours(s)->0 =~= seq![spec_parse_token(s.take(i))->0]
                + spec_parse_hours(s.skip(i + 1))->0);
        }
        if spec_parse_hours(s) is Some {
            assert(spec_parse_token(toks[0]) is Some);
            assert forall|k: int| 0 <= k < tail_toks.len() implies spec_parse_token(
                #[trigger] tail_toks[k],
            ) is Some by {
                assert(tail_toks[k] == toks[k + 1]);
                assert(spec_parse_token(toks[k + 1]) is Some);
            }
            assert(spec_parse_hours(s.skip(i + 1)) is Some);
        }
    }
}

/// Appends the hour values parsed from `s` to `out`, reporting whether the
/// whole string parsed; on a malformed string `out` may hold a prefix of the
/// values, which the caller discards.
fn parse_into(s: &str, out: &mut Vec<u8>) -> (ok: bool)
    ensures
        ok == (spec_parse_hours(s@) is Some),
        ok ==> final(out)@ == old(out)@ + spec_parse_hours(s@)->0,
    decreases s@.len(),
{
    let n = s.unicode_len();
    // First comma, if any.
    let mut i: usize = 0;
    loop
        invariant_except_break
            i <= n,
            forall|j: int| 0 <= j < i ==> s@[j] != ',',
        invariant
            n == s@.len(),
        ensures
            0 <= i <= n,
            forall|j: int| 0 <= j < i ==> s@[j] != ',',
            i < n ==> s@[i as int] == ',',
        decreases n - i,
    {
        if i == n {
            break;
        }
        if s.get_char(i) == ',' {
            break;
        }
        i += 1;
    }
    proof {
        lemma_parse_hours_head(s@, i as int);
    }
    if i == n {
        match parse_token(s) {
            Some(v) => {
                out.push(v);
                proof {
                    assert(out@ =~= old(out)@ + spec_parse_hours(s@)->0);
                }
                true
            },
            None => false,
        }
    } else {
        let tok = s.substring_char(0, i);
        proof {
            assert(tok@ =~= s@.take(i as int));
        }
        match parse_token(tok) {
            Some(v) => {
                out.push(v);
                let rest = s.substring_char(i + 1, n);
                proof {
                    assert(rest@ =~= s@.skip(i + 1));
                }
                let ok = parse_into(rest, out);
                proof {
                    if ok {
                        assert(out@ =~= old(out)@ + spec_parse_hours(s@)->0);
                    }
                }
                ok
            },
            None => false,
        }
    }
}

/// A schedule string that does not parse: some comma-separated token is not
/// a plain decimal hour value.
#[derive(Clone, Copy, PartialEq, Eq, Structural, Debug)]
pub struct ParseHoursError;

impl LightHours {
    /// Parses a comma-separated list of hour values, whitespace around each
    /// allowed. Returns the schedule exactly when every token parses, and
    /// the error exactly when some token is malformed.
    pub fn from_str(s: &str) -> (r: Result<LightHours, ParseHoursError>)
        ensures
            (r is Ok) == (spec_parse_hours(s@) is Some),
            r is Ok ==> (r->Ok_0)@ == spec_parse_hours(s@)->0,
    {
        let mut out: Vec<u8> = Vec::new();
        if parse_into(s, &mut out) {
            Ok(LightHours(out))
        } else {
            Err(ParseHoursError)
        }
    }

    /// The configuration pathway's recovery rule: a malformed schedule
    /// string yields the empty schedule — never active — rather than an
    /// error.
    pub fn from_str_or_default(s: &str) -> (r: LightHours)
        ensures
            spec_parse_hours(s@) is Some ==> r@ == spec_parse_hours(s@)->0,
            spec_parse_hours(s@) is None ==> r@ == Seq::<u8>::empty(),
    {
        match Self::from_str(s) {
            Ok(hours) => hours,
            Err(_) => LightHours::default(),
        }
    }
}

} // verus!
