//! Character-level helpers for the action codec: splitting a control id on
//! colons, parsing unsigned decimals the way `str::parse` does (an optional
//! leading `+`, then digits), and rendering decimals into strings.

use vstd::prelude::*;

verus! {

use vstd::string::StrSliceExecFns;
use vstd::string::StringExecFns;

/// The characters of a string slice, in order.
pub fn str_chars(s: &str) -> (v: Vec<char>)
    ensures
        v@ == s@,
{
    let n = s.unicode_len();
    let mut v: Vec<char> = Vec::new();
    let mut i: usize = 0;
    while i < n
        invariant
            n == s@.len(),
            i <= n,
            v@ == s@.take(i as int),
        decreases n - i,
    {
        v.push(s.get_char(i));
        proof {
            assert(v@ =~= s@.take(i as int + 1));
        }
        i = i + 1;
    }
    proof {
        assert(s@.take(n as int) =~= s@);
    }
    v
}

/// Whether a character sequence equals a string's characters.
pub fn chars_eq(v: &Vec<char>, s: &str) -> (r: bool)
    ensures
        r == (v@ == s@),
{
    let n = s.unicode_len();
    if v.len() != n {
        proof {
            assert(v@ != s@);
        }
        return false;
    }
    let mut i: usize = 0;
    while i < n
        invariant
            n == s@.len(),
            v@.len() == n,
            i <= n,
            forall|j: int| 0 <= j < i ==> v@[j] == s@[j],
        decreases n - i,
    {
        if v[i] != s.get_char(i) {
            return false;
        }
        i = i + 1;
    }
    proof {
        assert(v@ =~= s@);
    }
    true
}

// ---------------------------------------------------------------------------
// splitting on colons
// ---------------------------------------------------------------------------

/// The index of the first colon, or the length if there is none.
pub open spec fn find_colon(s: Seq<char>) -> int
    decreases s.len(),
{
    if s.len() == 0 {
        0
    } else if s[0] == ':' {
        0
    } else {
        1 + find_colon(s.drop_first())
    }
}

pub proof fn lemma_find_colon(s: Seq<char>)
    ensures
        0 <= find_colon(s) <= s.len(),
        forall|j: int| 0 <= j < find_colon(s) ==> s[j] != ':',
        find_colon(s) < s.len() ==> s[find_colon(s)] == ':',
    decreases s.len(),
{
    if s.len() > 0 && s[0] != ':' {
        lemma_find_colon(s.drop_first());
        assert forall|j: int| 0 <= j < find_colon(s) implies s[j] != ':' by {
            if j > 0 {
                assert(s.drop_first()[j - 1] != ':');
                assert(s.drop_first()[j - 1] == s[j]);
            }
        }
        if find_colon(s) < s.len() {
            assert(s.drop_first()[find_colon(s.drop_first())] == s[find_colon(s)]);
        }
    }
}

/// The colon-separated fields of a character sequence.  Splitting always
/// yields at least one field; adjacent colons yield empty fields, exactly
/// as `str::split(':')` does.
pub open spec fn split_colon(s: Seq<char>) -> Seq<Seq<char>>
    decreases s.len(),
{
    let k = find_colon(s);
    if !(0 <= k <= s.len()) {
        seq![s]  // unreachable; keeps the recursion well-founded
    } else if k == s.len() {
        seq![s]
    } else {
        seq![s.take(k)] + split_colon(s.skip(k + 1))
    }
}

/// Split a character vector on colons.
pub fn split_colon_exec(v: &Vec<char>) -> (r: Vec<Vec<char>>)
    ensures
        r.deep_view() == split_colon(v@),
        r@.len() >= 1,
{
    let n = v.len();
    let mut fields: Vec<Vec<char>> = Vec::new();
    let mut cur: Vec<char> = Vec::new();
    let mut start: usize = 0;
    let mut i: usize = 0;
    proof {
        assert(cur@ =~= v@.subrange(0, 0));
        assert(fields.deep_view() =~~= Seq::<Seq<char>>::empty());
        assert(v@.skip(0) =~= v@);
        assert(split_colon(v@) =~~= fields.deep_view() + split_colon(v@.skip(0)));
    }
    while i < n
        invariant
            n == v@.len(),
            start <= i <= n,
            cur@ == v@.subrange(start as int, i as int),
            forall|j: int| start <= j < i ==> v@[j] != ':',
            split_colon(v@) == fields.deep_view() + split_colon(v@.skip(start as int)),
        decreases n - i,
    {
        let c = v[i];
        if c == ':' {
            proof {
                let rest = v@.skip(start as int);
                lemma_find_colon_prefix(rest, (i - start) as int);
                assert(rest.take((i - start) as int) =~= cur@);
                assert(rest.skip((i - start) as int + 1) =~= v@.skip(i as int + 1));
                assert(split_colon(rest) == seq![cur@] + split_colon(v@.skip(i as int + 1)));
            }
            let ghost pre = fields.deep_view();
            let ghost curv = cur@;
            fields.push(cur);
            proof {
                assert(fields.deep_view() =~~= pre + seq![curv]);
                assert((pre + seq![curv]) + split_colon(v@.skip(i as int + 1)) =~~= pre + (seq![curv]
                    + split_colon(v@.skip(i as int + 1))));
            }
            cur = Vec::new();
            start = i + 1;
            proof {
                assert(cur@ =~= v@.subrange(start as int, start as int));
            }
        } else {
            cur.push(c);
            proof {
                assert(cur@ =~= v@.subrange(start as int, i as int + 1));
            }
        }
        i = i + 1;
    }
    proof {
        let rest = v@.skip(start as int);
        lemma_find_colon_none(rest);
        assert(rest =~= cur@);
        assert(split_colon(rest) == seq![cur@]);
    }
    let ghost pre = fields.deep_view();
    let ghost curv = cur@;
    fields.push(cur);
    proof {
        assert(fields.deep_view() =~~= pre + seq![curv]);
        assert(split_colon(v@) =~~= fields.deep_view());
    }
    fields
}

proof fn lemma_find_colon_prefix(s: Seq<char>, k: int)
    requires
        0 <= k < s.len(),
        forall|j: int| 0 <= j < k ==> s[j] != ':',
        s[k] == ':',
    ensures
        find_colon(s) == k,
    decreases k,
{
    if k > 0 {
        assert(s[0] != ':');
        lemma_find_colon_prefix(s.drop_first(), k - 1);
    }
}

proof fn lemma_find_colon_none(s: Seq<char>)
    requires
        forall|j: int| 0 <= j < s.len() ==> s[j] != ':',
    ensures
        find_colon(s) == s.len(),
    decreases s.len(),
{
    if s.len() > 0 {
        lemma_find_colon_none(s.drop_first());
    }
}

// ---------------------------------------------------------------------------
// unsigned decimals
// ---------------------------------------------------------------------------

pub open spec fn is_digit_char(c: char) -> bool {
    '0' <= c <= '9'
}

pub open spec fn char_digit(c: char) -> int {
    c as int - 48
}

/// The value of a digit run, most significant first.
pub open spec fn chars_val(s: Seq<char>) -> int
    decreases s.len(),
{
    if s.len() == 0 {
        0int
    } else {
        chars_val(s.take(s.len() - 1)) * 10 + char_digit(s.last())
    }
}

pub open spec fn all_digit_chars(s: Seq<char>) -> bool {
    forall|i: int| 0 <= i < s.len() ==> is_digit_char(#[trigger] s[i])
}

/// The number a field denotes, the way `str::parse::<usize>` reads it: an
/// optional leading `+`, then one or more digits, rejecting values over
/// the machine's `usize` range.  Leading zeros are accepted.
pub open spec fn parse_usize_spec(s: Seq<char>) -> Option<usize> {
    let d = if s.len() > 0 && s[0] == '+' {
        s.drop_first()
    } else {
        s
    };
    if d.len() > 0 && all_digit_chars(d) && chars_val(d) <= usize::MAX {
        Some(chars_val(d) as usize)
    } else {
        None
    }
}

proof fn lemma_chars_val_nonneg(s: Seq<char>)
    requires
        all_digit_chars(s),
    ensures
        chars_val(s) >= 0,
    decreases s.len(),
{
    assert(chars_val(Seq::<char>::empty()) == 0);
    if s.len() > 0 {
        let front = s.take(s.len() - 1);
        lemma_chars_val_nonneg(front);
        assert(is_digit_char(s[s.len() - 1]));
        assert(chars_val(front) * 10 >= 0) by (nonlinear_arith)
            requires
                chars_val(front) >= 0,
        ;
    }
}

proof fn lemma_chars_val_monotone(s: Seq<char>, i: int)
    requires
        0 <= i <= s.len(),
        all_digit_chars(s),
    ensures
        chars_val(s.take(i)) <= chars_val(s),
    decreases s.len() - i,
{
    if i < s.len() {
        let t = s.take(i + 1);
        assert(t.len() == i + 1);
        assert(t.take(i) =~= s.take(i));
        assert(t.last() == s[i]);
        assert(is_digit_char(s[i]));
        assert(chars_val(t) == chars_val(s.take(i)) * 10 + char_digit(t.last()));
        assert(forall|j: int| 0 <= j < s.take(i).len() ==> is_digit_char(#[trigger] s.take(i)[j]));
        lemma_chars_val_nonneg(s.take(i));
        assert(chars_val(s.take(i)) <= chars_val(t)) by (nonlinear_arith)
            requires
                chars_val(t) == chars_val(s.take(i)) * 10 + char_digit(t.last()),
                char_digit(t.last()) >= 0,
                chars_val(s.take(i)) >= 0,
        ;
        lemma_chars_val_monotone(s, i + 1);
        assert(s.take(i + 1) == t);
    } else {
        assert(s.take(i) =~= s);
    }
}

/// Parse a control-id field as `str::parse::<usize>` would.
pub fn parse_usize_field(v: &Vec<char>) -> (r: Option<usize>)
    ensures
        r == parse_usize_spec(v@),
{
    let mut from: usize = 0;
    if v.len() > 0 && v[0] == '+' {
        from = 1;
    }
    let ghost d = if v@.len() > 0 && v@[0] == '+' {
        v@.drop_first()
    } else {
        v@
    };
    proof {
        assert(d =~= v@.skip(from as int));
    }
    let n = v.len();
    if from >= n {
        proof {
            assert(d.len() == 0);
        }
        return None;
    }
    proof {
        assert(chars_val(Seq::<char>::empty()) == 0);
        assert(d.take(0) =~= Seq::<char>::empty());
    }
    let mut acc: usize = 0;
    let mut i: usize = from;
    while i < n
        invariant
            n == v@.len(),
            from <= i <= n,
            from < n,
            d == v@.skip(from as int),
            d == (if v@.len() > 0 && v@[0] == '+' { v@.drop_first() } else { v@ }),
            forall|j: int| 0 <= j < i - from ==> is_digit_char(#[trigger] d[j]),
            acc == chars_val(d.take(i - from)),
            acc <= usize::MAX,
        decreases n - i,
    {
        let c = v[i];
        if c < '0' || c > '9' {
            proof {
                assert(d[i - from] == c);
                assert(!is_digit_char(d[i - from]));
            }
            return None;
        }
        let dv = (c as u32 - 48) as usize;
        proof {
            let t = d.take(i - from + 1);
            assert(t.len() == i - from + 1);
            assert(t.take(i - from) =~= d.take(i - from));
            assert(t.last() == d[i - from]);
            assert(d[i - from] == c);
            assert(char_digit(c) == dv);
        }
        if acc > (usize::MAX - dv) / 10 {
            proof {
                let t = d.take(i - from + 1);
                assert(chars_val(t) == acc * 10 + dv);
                assert(chars_val(t) > usize::MAX) by (nonlinear_arith)
                    requires
                        chars_val(t) == acc * 10 + dv,
                        acc > (usize::MAX - dv) / 10,
                        acc <= usize::MAX,
                        dv < 10,
                ;
                assert(all_digit_chars(d.take(i - from + 1)));
                lemma_chars_val_monotone_full(d, i - from + 1);
            }
            return None;
        }
        proof {
            assert(acc * 10 + dv <= usize::MAX) by (nonlinear_arith)
                requires
                    acc <= (usize::MAX - dv) / 10,
                    dv < 10,
                    acc >= 0,
            ;
        }
        acc = acc * 10 + dv;
        i = i + 1;
    }
    proof {
        assert(d.take(n - from) =~= d);
        assert(all_digit_chars(d));
    }
    Some(acc)
}

/// If some prefix of a digit run is already too large, so is the run.
proof fn lemma_chars_val_monotone_full(d: Seq<char>, i: int)
    requires
        0 <= i <= d.len(),
        forall|j: int| 0 <= j < i ==> is_digit_char(#[trigger] d[j]),
        chars_val(d.take(i)) > usize::MAX,
    ensures
        all_digit_chars(d) ==> chars_val(d) > usize::MAX,
{
    if all_digit_chars(d) {
        lemma_chars_val_monotone(d, i);
    }
}

// ---------------------------------------------------------------------------
// rendering decimals
// ---------------------------------------------------------------------------

/// The decimal digits of a number, as characters.
pub open spec fn dec_digits(v: nat) -> Seq<char>
    decreases v,
{
    if v < 10 {
        seq![((48 + v) as u8) as char]
    } else {
        dec_digits(v / 10) + seq![((48 + v % 10) as u8) as char]
    }
}

/// Append the decimal digits of `v` to `out`.
pub fn push_u64(out: &mut String, v: u64)
    ensures
        final(out)@ == old(out)@ + dec_digits(v as nat),
    decreases v,
{
    if v >= 10 {
        push_u64(out, v / 10);
    }
    let d = (v % 10) as u8;
    match d {
        0 => out.append("0"),
        1 => out.append("1"),
        2 => out.append("2"),
        3 => out.append("3"),
        4 => out.append("4"),
        5 => out.append("5"),
        6 => out.append("6"),
        7 => out.append("7"),
        8 => out.append("8"),
        _ => out.append("9"),
    }
    proof {
        reveal_strlit("0");
        reveal_strlit("1");
        reveal_strlit("2");
        reveal_strlit("3");
        reveal_strlit("4");
        reveal_strlit("5");
        reveal_strlit("6");
        reveal_strlit("7");
        reveal_strlit("8");
        reveal_strlit("9");
        if v < 10 {
            assert(out@ =~= old(out)@ + dec_digits(v as nat));
        } else {
            assert(out@ =~= old(out)@ + dec_digits(v as nat));
        }
    }
}

} // verus!
