//! Character-level pieces of the line-delimited JSON wire format: blanks,
//! unsigned decimal numbers, the `null` literal, and quoted strings with the
//! usual escapes.  Each piece has a mathematical parser over a character
//! sequence — together they define the grammar — and an executable twin that
//! is proved to return exactly what the mathematical parser says.

use vstd::prelude::*;
use vstd::string::StrSliceExecFns;
use vstd::string::StringExecFns;

verus! {

/// The blanks the grammar allows between tokens.
pub open spec fn is_blank(c: char) -> bool {
    c == ' ' || c == '\t' || c == '\n' || c == '\r'
}

/// A decimal digit.
pub open spec fn is_digit(c: char) -> bool {
    48 <= c as u32 <= 57
}

/// The value of a decimal digit.
pub open spec fn digit_val(c: char) -> nat {
    (c as u32 - 48) as nat
}

/// The first position at or after `i` that does not hold a blank.
pub open spec fn sp_blanks(s: Seq<char>, i: int) -> int
    decreases s.len() - i,
    when 0 <= i <= s.len()
{
    if i < s.len() && is_blank(s[i]) {
        sp_blanks(s, i + 1)
    } else {
        i
    }
}

/// Skipping blanks stays within the text.
pub proof fn lemma_blanks_range(s: Seq<char>, i: int)
    requires
        0 <= i <= s.len(),
    ensures
        i <= sp_blanks(s, i) <= s.len(),
    decreases s.len() - i,
{
    if i < s.len() && is_blank(s[i]) {
        lemma_blanks_range(s, i + 1);
    }
}

/// Reading a run of digits from position `i`, continuing the value `acc`:
/// the value read and the position after the run.
pub open spec fn sp_digits(s: Seq<char>, i: int, acc: nat) -> (nat, int)
    decreases s.len() - i,
    when 0 <= i <= s.len()
{
    if i < s.len() && is_digit(s[i]) {
        sp_digits(s, i + 1, acc * 10 + digit_val(s[i]))
    } else {
        (acc, i)
    }
}

/// Reading digits stays within the text and never backs up.
pub proof fn lemma_digits_range(s: Seq<char>, i: int, acc: nat)
    requires
        0 <= i <= s.len(),
    ensures
        i <= sp_digits(s, i, acc).1 <= s.len(),
    decreases s.len() - i,
{
    if i < s.len() && is_digit(s[i]) {
        lemma_digits_range(s, i + 1, acc * 10 + digit_val(s[i]));
    }
}

/// An unsigned decimal number at position `i`: at least one digit, no
/// leading zero, and a value that a machine word can hold.
pub open spec fn sp_uint(s: Seq<char>, i: int) -> Option<(usize, int)> {
    if 0 <= i < s.len() && is_digit(s[i]) {
        if s[i] == '0' && i + 1 < s.len() && is_digit(s[i + 1]) {
            None
        } else {
            let pair = sp_digits(s, i, 0);
            if pair.0 > usize::MAX as nat {
                None
            } else {
                Some((pair.0 as usize, pair.1))
            }
        }
    } else {
        None
    }
}

/// A number ends past where it starts and within the text.
pub proof fn lemma_uint_range(s: Seq<char>, i: int)
    requires
        sp_uint(s, i) is Some,
    ensures
        i < (sp_uint(s, i)->0).1 <= s.len(),
{
    lemma_digits_range(s, i + 1, digit_val(s[i]));
}

/// The literal `null` at position `i`.
pub open spec fn sp_null(s: Seq<char>, i: int) -> Option<int> {
    if 0 <= i && i + 4 <= s.len() && s[i] == 'n' && s[i + 1] == 'u' && s[i + 2] == 'l' && s[i + 3]
        == 'l' {
        Some(i + 4)
    } else {
        None
    }
}

/// The characters of a quoted string being read at position `j` (past the
/// opening quote), continuing the content `acc`: ends at the closing quote.
/// The escapes `\" \\ \/ \n \t \r \b \f` stand for their characters; other
/// escapes and bare control characters are not part of the grammar.
pub open spec fn sp_str_chars(s: Seq<char>, j: int, acc: Seq<char>) -> Option<(Seq<char>, int)>
    decreases s.len() - j,
    when 0 <= j <= s.len()
{
    if j >= s.len() {
        None
    } else {
        let c = s[j];
        if c == '"' {
            Some((acc, j + 1))
        } else if c == '\\' {
            if j + 1 < s.len() {
                let e = s[j + 1];
                if e == '"' {
                    sp_str_chars(s, j + 2, acc.push('"'))
                } else if e == '\\' {
                    sp_str_chars(s, j + 2, acc.push('\\'))
                } else if e == '/' {
                    sp_str_chars(s, j + 2, acc.push('/'))
                } else if e == 'n' {
                    sp_str_chars(s, j + 2, acc.push('\n'))
                } else if e == 't' {
                    sp_str_chars(s, j + 2, acc.push('\t'))
                } else if e == 'r' {
                    sp_str_chars(s, j + 2, acc.push('\r'))
                } else if e == 'b' {
                    sp_str_chars(s, j + 2, acc.push('\u{8}'))
                } else if e == 'f' {
                    sp_str_chars(s, j + 2, acc.push('\u{c}'))
                } else {
                    None
                }
            } else {
                None
            }
        } else if (c as u32) < 32 {
            None
        } else {
            sp_str_chars(s, j + 1, acc.push(c))
        }
    }
}

/// A quoted string at position `i`: an opening quote, content, a closing
/// quote.
pub open spec fn sp_string(s: Seq<char>, i: int) -> Option<(Seq<char>, int)> {
    if 0 <= i < s.len() && s[i] == '"' {
        sp_str_chars(s, i + 1, Seq::empty())
    } else {
        None
    }
}

/// String content ends past where it starts and within the text.
pub proof fn lemma_str_chars_range(s: Seq<char>, j: int, acc: Seq<char>)
    requires
        0 <= j <= s.len(),
        sp_str_chars(s, j, acc) is Some,
    ensures
        j < (sp_str_chars(s, j, acc)->0).1 <= s.len(),
    decreases s.len() - j,
{
    let c = s[j];
    if c == '"' {
    } else if c == '\\' {
        let e = s[j + 1];
        if e == '"' {
            lemma_str_chars_range(s, j + 2, acc.push('"'));
        } else if e == '\\' {
            lemma_str_chars_range(s, j + 2, acc.push('\\'));
        } else if e == '/' {
            lemma_str_chars_range(s, j + 2, acc.push('/'));
        } else if e == 'n' {
            lemma_str_chars_range(s, j + 2, acc.push('\n'));
        } else if e == 't' {
            lemma_str_chars_range(s, j + 2, acc.push('\t'));
        } else if e == 'r' {
            lemma_str_chars_range(s, j + 2, acc.push('\r'));
        } else if e == 'b' {
            lemma_str_chars_range(s, j + 2, acc.push('\u{8}'));
        } else if e == 'f' {
            lemma_str_chars_range(s, j + 2, acc.push('\u{c}'));
        }
    } else {
        lemma_str_chars_range(s, j + 1, acc.push(c));
    }
}

/// A string ends past where it starts and within the text.
pub proof fn lemma_string_range(s: Seq<char>, i: int)
    requires
        sp_string(s, i) is Some,
    ensures
        i < (sp_string(s, i)->0).1 <= s.len(),
{
    lemma_str_chars_range(s, i + 1, Seq::empty());
}

/// Skip blanks.
pub fn blanks(s: &str, n: usize, i: usize) -> (r: usize)
    requires
        n == s@.len(),
        i <= n,
    ensures
        r == sp_blanks(s@, i as int),
        i <= r <= n,
    decreases n - i,
{
    if i < n {
        let c = s.get_char(i);
        if c == ' ' || c == '\t' || c == '\n' || c == '\r' {
            return blanks(s, n, i + 1);
        }
    }
    i
}

/// Read a run of digits, tracking whether the value outgrew a machine word.
pub fn digits(s: &str, n: usize, j: usize, acc: u128, over: bool, acc_g: Ghost<nat>) -> (r: (
    usize,
    u128,
    bool,
))
    requires
        n == s@.len(),
        j <= n,
        !over ==> acc as nat == acc_g@ && acc_g@ <= usize::MAX as nat,
        over ==> acc_g@ > usize::MAX as nat,
    ensures
        ({
            let sd = sp_digits(s@, j as int, acc_g@);
            &&& r.0 == sd.1
            &&& j <= r.0 <= n
            &&& (!r.2 ==> r.1 as nat == sd.0 && sd.0 <= usize::MAX as nat)
            &&& (r.2 ==> sd.0 > usize::MAX as nat)
        }),
    decreases n - j,
{
    if j < n {
        let c = s.get_char(j);
        let cv = c as u32;
        if 48 <= cv && cv <= 57 {
            let d = cv - 48;
            let ghost next_g: nat = acc_g@ * 10 + digit_val(c);
            if over {
                proof {
                    assert(next_g >= acc_g@) by (nonlinear_arith)
                        requires
                            next_g == acc_g@ * 10 + digit_val(c),
                    ;
                }
                return digits(s, n, j + 1, acc, true, Ghost(next_g));
            }
            let next: u128 = acc * 10 + d as u128;
            proof {
                assert(next as nat == next_g);
            }
            if next > usize::MAX as u128 {
                return digits(s, n, j + 1, next, true, Ghost(next_g));
            }
            return digits(s, n, j + 1, next, false, Ghost(next_g));
        }
    }
    (j, acc, over)
}

/// Read an unsigned decimal number.
pub fn uint(s: &str, n: usize, i: usize) -> (r: Option<(usize, usize)>)
    requires
        n == s@.len(),
        i <= n,
    ensures
        match r {
            Some(p) => sp_uint(s@, i as int) == Some((p.0, p.1 as int)) && i < p.1 <= n,
            None => sp_uint(s@, i as int) is None,
        },
{
    if i >= n {
        return None;
    }
    let c = s.get_char(i);
    let cv = c as u32;
    if !(48 <= cv && cv <= 57) {
        return None;
    }
    if c == '0' && i + 1 < n {
        let c2 = s.get_char(i + 1);
        let cv2 = c2 as u32;
        if 48 <= cv2 && cv2 <= 57 {
            return None;
        }
    }
    let (end, acc, over) = digits(s, n, i, 0, false, Ghost(0nat));
    if over {
        return None;
    }
    proof {
        lemma_uint_range(s@, i as int);
    }
    Some((acc as usize, end))
}

/// Read the literal `null`.
pub fn null_lit(s: &str, n: usize, i: usize) -> (r: Option<usize>)
    requires
        n == s@.len(),
        i <= n,
    ensures
        match r {
            Some(end) => sp_null(s@, i as int) == Some(end as int) && i < end <= n,
            None => sp_null(s@, i as int) is None,
        },
{
    if n - i < 4 {
        return None;
    }
    if s.get_char(i) == 'n' && s.get_char(i + 1) == 'u' && s.get_char(i + 2) == 'l' && s.get_char(
        i + 3,
    ) == 'l' {
        Some(i + 4)
    } else {
        None
    }
}

/// Read the characters of a quoted string, past the opening quote.
fn str_chars(s: &str, n: usize, j: usize, acc: String) -> (r: Option<(String, usize)>)
    requires
        n == s@.len(),
        j <= n,
    ensures
        match r {
            Some(p) => sp_str_chars(s@, j as int, acc@) == Some((p.0@, p.1 as int)) && j < p.1
                <= n,
            None => sp_str_chars(s@, j as int, acc@) is None,
        },
    decreases n - j,
{
    if j >= n {
        return None;
    }
    let c = s.get_char(j);
    if c == '"' {
        return Some((acc, j + 1));
    }
    if c == '\\' {
        if j + 1 >= n {
            return None;
        }
        let e = s.get_char(j + 1);
        let mut acc2 = acc;
        if e == '"' {
            acc2.append("\"");
            proof {
                reveal_strlit("\"");
                assert(acc2@ =~= acc@.push('"'));
            }
        } else if e == '\\' {
            acc2.append("\\");
            proof {
                reveal_strlit("\\");
                assert(acc2@ =~= acc@.push('\\'));
            }
        } else if e == '/' {
            acc2.append("/");
            proof {
                reveal_strlit("/");
                assert(acc2@ =~= acc@.push('/'));
            }
        } else if e == 'n' {
            acc2.append("\n");
            proof {
                reveal_strlit("\n");
                assert(acc2@ =~= acc@.push('\n'));
            }
        } else if e == 't' {
            acc2.append("\t");
            proof {
                reveal_strlit("\t");
                assert(acc2@ =~= acc@.push('\t'));
            }
        } else if e == 'r' {
            acc2.append("\r");
            proof {
                reveal_strlit("\r");
                assert(acc2@ =~= acc@.push('\r'));
            }
        } else if e == 'b' {
            acc2.append("\u{8}");
            proof {
                reveal_strlit("\u{8}");
                assert(acc2@ =~= acc@.push('\u{8}'));
            }
        } else if e == 'f' {
            acc2.append("\u{c}");
            proof {
                reveal_strlit("\u{c}");
                assert(acc2@ =~= acc@.push('\u{c}'));
            }
        } else {
            return None;
        }
        return str_chars(s, n, j + 2, acc2);
    }
    if (c as u32) < 32 {
        return None;
    }
    let piece = s.substring_char(j, j + 1);
    let mut acc2 = acc;
    acc2.append(piece);
    proof {
        assert(s@.subrange(j as int, j as int + 1) =~= seq![s@[j as int]]);
        assert(acc2@ =~= acc@.push(c));
    }
    str_chars(s, n, j + 1, acc2)
}

/// Read a quoted string.
pub fn string_lit(s: &str, n: usize, i: usize) -> (r: Option<(String, usize)>)
    requires
        n == s@.len(),
        i <= n,
    ensures
        match r {
            Some(p) => sp_string(s@, i as int) == Some((p.0@, p.1 as int)) && i < p.1 <= n,
            None => sp_string(s@, i as int) is None,
        },
{
    if i >= n {
        return None;
    }
    if s.get_char(i) != '"' {
        return None;
    }
    str_chars(s, n, i + 1, String::new())
}


/// The characters a number-shaped token may contain.  Skipped values are not
/// held to the strict number grammar of the protocol's own fields: a signed,
/// fractional or exponent form passes over fine.
pub open spec fn is_numberish(c: char) -> bool {
    is_digit(c) || c == '-' || c == '+' || c == '.' || c == 'e' || c == 'E'
}

/// The first position at or after `i` past a run of number-shaped characters.
pub open spec fn sp_numberish(s: Seq<char>, i: int) -> int
    decreases s.len() - i,
    when 0 <= i <= s.len()
{
    if i < s.len() && is_numberish(s[i]) {
        sp_numberish(s, i + 1)
    } else {
        i
    }
}

/// A number-shaped run stays within the text.
pub proof fn lemma_numberish_range(s: Seq<char>, i: int)
    requires
        0 <= i <= s.len(),
    ensures
        i <= sp_numberish(s, i) <= s.len(),
    decreases s.len() - i,
{
    if i < s.len() && is_numberish(s[i]) {
        lemma_numberish_range(s, i + 1);
    }
}

/// The literal `true` at position `i`.
pub open spec fn sp_true(s: Seq<char>, i: int) -> Option<int> {
    if 0 <= i && i + 4 <= s.len() && s[i] == 't' && s[i + 1] == 'r' && s[i + 2] == 'u' && s[i + 3]
        == 'e' {
        Some(i + 4)
    } else {
        None
    }
}

/// The literal `false` at position `i`.
pub open spec fn sp_false(s: Seq<char>, i: int) -> Option<int> {
    if 0 <= i && i + 5 <= s.len() && s[i] == 'f' && s[i + 1] == 'a' && s[i + 2] == 'l' && s[i + 3]
        == 's' && s[i + 4] == 'e' {
        Some(i + 5)
    } else {
        None
    }
}

/// A position forced past `lo` and into the text.  The skip functions below
/// clamp the positions their mutually recursive calls return, only so that
/// their termination is structural; once they are defined,
/// `lemma_skip_value_range` shows the clamp never fires.
pub open spec fn clamped(s: Seq<char>, lo: int, e: int) -> int {
    if lo + 1 > s.len() {
        s.len() as int
    } else if e <= lo {
        lo + 1
    } else if e > s.len() {
        s.len() as int
    } else {
        e
    }
}

/// Any JSON value, read only to be passed over: a string, a number-shaped
/// token, `null`, `true`, `false`, an array of values, or an object of
/// string keys and values.
pub open spec fn sp_skip_value(s: Seq<char>, i: int) -> Option<int>
    decreases s.len() - i, 0int,
    when 0 <= i <= s.len()
    via sp_skip_value_dec
{
    if i >= s.len() {
        None
    } else {
        let c = s[i];
        if c == '"' {
            match sp_string(s, i) {
                Some(p) => Some(p.1),
                None => None,
            }
        } else if c == '[' {
            let j = sp_blanks(s, i + 1);
            if j < s.len() && s[j] == ']' {
                Some(j + 1)
            } else {
                sp_skip_items(s, j)
            }
        } else if c == '{' {
            let j = sp_blanks(s, i + 1);
            if j < s.len() && s[j] == '}' {
                Some(j + 1)
            } else {
                sp_skip_members(s, j)
            }
        } else if sp_null(s, i) is Some {
            sp_null(s, i)
        } else if sp_true(s, i) is Some {
            sp_true(s, i)
        } else if sp_false(s, i) is Some {
            sp_false(s, i)
        } else if is_numberish(c) {
            Some(sp_numberish(s, i))
        } else {
            None
        }
    }
}

#[via_fn]
proof fn sp_skip_value_dec(s: Seq<char>, i: int) {
    assert forall|p: int| 0 <= p <= s.len() implies p <= #[trigger] sp_blanks(s, p) <= s.len() by {
        lemma_blanks_range(s, p);
    }
}

/// The rest of an array being passed over: values separated by commas,
/// closed by a bracket.
pub open spec fn sp_skip_items(s: Seq<char>, i: int) -> Option<int>
    decreases s.len() - i, 1int,
    when 0 <= i <= s.len()
    via sp_skip_items_dec
{
    match sp_skip_value(s, i) {
        None => None,
        Some(e) => {
            let j = sp_blanks(s, clamped(s, i, e));
            if j < s.len() && s[j] == ']' {
                Some(j + 1)
            } else if j < s.len() && s[j] == ',' {
                sp_skip_items(s, sp_blanks(s, j + 1))
            } else {
                None
            }
        },
    }
}

#[via_fn]
proof fn sp_skip_items_dec(s: Seq<char>, i: int) {
    assert forall|p: int| 0 <= p <= s.len() implies p <= #[trigger] sp_blanks(s, p) <= s.len() by {
        lemma_blanks_range(s, p);
    }
}

/// The rest of an object being passed over: string keys, colons and values
/// separated by commas, closed by a brace.
pub open spec fn sp_skip_members(s: Seq<char>, i: int) -> Option<int>
    decreases s.len() - i, 1int,
    when 0 <= i <= s.len()
    via sp_skip_members_dec
{
    match sp_string(s, i) {
        None => None,
        Some(k) => {
            let j = sp_blanks(s, clamped(s, i, k.1));
            if j < s.len() && s[j] == ':' {
                let v = sp_blanks(s, j + 1);
                match sp_skip_value(s, v) {
                    None => None,
                    Some(e) => {
                        let j2 = sp_blanks(s, clamped(s, v, e));
                        if j2 < s.len() && s[j2] == '}' {
                            Some(j2 + 1)
                        } else if j2 < s.len() && s[j2] == ',' {
                            sp_skip_members(s, sp_blanks(s, j2 + 1))
                        } else {
                            None
                        }
                    },
                }
            } else {
                None
            }
        },
    }
}

#[via_fn]
proof fn sp_skip_members_dec(s: Seq<char>, i: int) {
    assert forall|p: int| 0 <= p <= s.len() implies p <= #[trigger] sp_blanks(s, p) <= s.len() by {
        lemma_blanks_range(s, p);
    }
}

/// A passed-over value ends past where it starts and within the text — so
/// the clamps in the definitions above never fire.
pub proof fn lemma_skip_value_range(s: Seq<char>, i: int)
    requires
        0 <= i <= s.len(),
        sp_skip_value(s, i) is Some,
    ensures
        i < sp_skip_value(s, i)->0 <= s.len(),
    decreases s.len() - i, 0int,
{
    let c = s[i];
    if c == '"' {
        lemma_string_range(s, i);
    } else if c == '[' {
        lemma_blanks_range(s, i + 1);
        let j = sp_blanks(s, i + 1);
        if !(j < s.len() && s[j] == ']') {
            lemma_skip_items_range(s, j);
        }
    } else if c == '{' {
        lemma_blanks_range(s, i + 1);
        let j = sp_blanks(s, i + 1);
        if !(j < s.len() && s[j] == '}') {
            lemma_skip_members_range(s, j);
        }
    } else if sp_null(s, i) is Some || sp_true(s, i) is Some || sp_false(s, i) is Some {
    } else {
        lemma_numberish_range(s, i + 1);
    }
}

/// Passed-over array items end past where they start and within the text.
pub proof fn lemma_skip_items_range(s: Seq<char>, i: int)
    requires
        0 <= i <= s.len(),
        sp_skip_items(s, i) is Some,
    ensures
        i < sp_skip_items(s, i)->0 <= s.len(),
    decreases s.len() - i, 1int,
{
    lemma_skip_value_range(s, i);
    let e = sp_skip_value(s, i)->0;
    lemma_blanks_range(s, clamped(s, i, e));
    let j = sp_blanks(s, clamped(s, i, e));
    if j < s.len() && s[j] == ']' {
    } else {
        lemma_blanks_range(s, j + 1);
        lemma_skip_items_range(s, sp_blanks(s, j + 1));
    }
}

/// Passed-over object members end past where they start and within the text.
pub proof fn lemma_skip_members_range(s: Seq<char>, i: int)
    requires
        0 <= i <= s.len(),
        sp_skip_members(s, i) is Some,
    ensures
        i < sp_skip_members(s, i)->0 <= s.len(),
    decreases s.len() - i, 1int,
{
    lemma_string_range(s, i);
    let k = sp_string(s, i)->0;
    lemma_blanks_range(s, clamped(s, i, k.1));
    let j = sp_blanks(s, clamped(s, i, k.1));
    lemma_blanks_range(s, j + 1);
    let v = sp_blanks(s, j + 1);
    lemma_skip_value_range(s, v);
    let e = sp_skip_value(s, v)->0;
    lemma_blanks_range(s, clamped(s, v, e));
    let j2 = sp_blanks(s, clamped(s, v, e));
    if j2 < s.len() && s[j2] == '}' {
    } else {
        lemma_blanks_range(s, j2 + 1);
        lemma_skip_members_range(s, sp_blanks(s, j2 + 1));
    }
}

} // verus!\n
verus! {

/// Read the literal `true`.
pub fn true_lit(s: &str, n: usize, i: usize) -> (r: Option<usize>)
    requires
        n == s@.len(),
        i <= n,
    ensures
        match r {
            Some(end) => sp_true(s@, i as int) == Some(end as int) && i < end <= n,
            None => sp_true(s@, i as int) is None,
        },
{
    if n - i < 4 {
        return None;
    }
    if s.get_char(i) == 't' && s.get_char(i + 1) == 'r' && s.get_char(i + 2) == 'u' && s.get_char(
        i + 3,
    ) == 'e' {
        Some(i + 4)
    } else {
        None
    }
}

/// Read the literal `false`.
pub fn false_lit(s: &str, n: usize, i: usize) -> (r: Option<usize>)
    requires
        n == s@.len(),
        i <= n,
    ensures
        match r {
            Some(end) => sp_false(s@, i as int) == Some(end as int) && i < end <= n,
            None => sp_false(s@, i as int) is None,
        },
{
    if n - i < 5 {
        return None;
    }
    if s.get_char(i) == 'f' && s.get_char(i + 1) == 'a' && s.get_char(i + 2) == 'l' && s.get_char(
        i + 3,
    ) == 's' && s.get_char(i + 4) == 'e' {
        Some(i + 5)
    } else {
        None
    }
}

/// Pass over a run of number-shaped characters.
fn numberish(s: &str, n: usize, i: usize) -> (r: usize)
    requires
        n == s@.len(),
        i <= n,
    ensures
        r == sp_numberish(s@, i as int),
        i <= r <= n,
    decreases n - i,
{
    if i < n {
        let c = s.get_char(i);
        let cv = c as u32;
        if (48 <= cv && cv <= 57) || c == '-' || c == '+' || c == '.' || c == 'e' || c == 'E' {
            return numberish(s, n, i + 1);
        }
    }
    i
}

/// Pass over any JSON value.
pub fn skip_value(s: &str, n: usize, i: usize) -> (r: Option<usize>)
    requires
        n == s@.len(),
        i <= n,
    ensures
        match r {
            Some(e) => sp_skip_value(s@, i as int) == Some(e as int) && i < e <= n,
            None => sp_skip_value(s@, i as int) is None,
        },
    decreases n - i, 0int,
{
    if i >= n {
        return None;
    }
    let c = s.get_char(i);
    if c == '"' {
        match string_lit(s, n, i) {
            Some(p) => Some(p.1),
            None => None,
        }
    } else if c == '[' {
        let j = blanks(s, n, i + 1);
        if j < n && s.get_char(j) == ']' {
            Some(j + 1)
        } else {
            skip_items(s, n, j)
        }
    } else if c == '{' {
        let j = blanks(s, n, i + 1);
        if j < n && s.get_char(j) == '}' {
            Some(j + 1)
        } else {
            skip_members(s, n, j)
        }
    } else {
        match null_lit(s, n, i) {
            Some(e) => Some(e),
            None => match true_lit(s, n, i) {
                Some(e) => Some(e),
                None => match false_lit(s, n, i) {
                    Some(e) => Some(e),
                    None => {
                        let cv = c as u32;
                        if (48 <= cv && cv <= 57) || c == '-' || c == '+' || c == '.' || c == 'e'
                            || c == 'E' {
                            let e = numberish(s, n, i + 1);
                            proof {
                                assert(sp_numberish(s@, i as int) == sp_numberish(s@, i + 1));
                            }
                            Some(e)
                        } else {
                            None
                        }
                    },
                },
            },
        }
    }
}

/// Pass over the rest of an array.
fn skip_items(s: &str, n: usize, i: usize) -> (r: Option<usize>)
    requires
        n == s@.len(),
        i <= n,
    ensures
        match r {
            Some(e) => sp_skip_items(s@, i as int) == Some(e as int) && i < e <= n,
            None => sp_skip_items(s@, i as int) is None,
        },
    decreases n - i, 1int,
{
    let e = match skip_value(s, n, i) {
        None => {
            return None;
        },
        Some(e) => e,
    };
    proof {
        assert(clamped(s@, i as int, e as int) == e as int);
    }
    let j = blanks(s, n, e);
    if j < n && s.get_char(j) == ']' {
        Some(j + 1)
    } else if j < n && s.get_char(j) == ',' {
        let j2 = blanks(s, n, j + 1);
        skip_items(s, n, j2)
    } else {
        None
    }
}

/// Pass over the rest of an object.
fn skip_members(s: &str, n: usize, i: usize) -> (r: Option<usize>)
    requires
        n == s@.len(),
        i <= n,
    ensures
        match r {
            Some(e) => sp_skip_members(s@, i as int) == Some(e as int) && i < e <= n,
            None => sp_skip_members(s@, i as int) is None,
        },
    decreases n - i, 1int,
{
    let k = match string_lit(s, n, i) {
        None => {
            return None;
        },
        Some(k) => k,
    };
    proof {
        assert(clamped(s@, i as int, k.1 as int) == k.1 as int);
    }
    let j = blanks(s, n, k.1);
    if !(j < n && s.get_char(j) == ':') {
        return None;
    }
    let v = blanks(s, n, j + 1);
    let e = match skip_value(s, n, v) {
        None => {
            return None;
        },
        Some(e) => e,
    };
    proof {
        assert(clamped(s@, v as int, e as int) == e as int);
    }
    let j2 = blanks(s, n, e);
    if j2 < n && s.get_char(j2) == '}' {
        Some(j2 + 1)
    } else if j2 < n && s.get_char(j2) == ',' {
        let j3 = blanks(s, n, j2 + 1);
        skip_members(s, n, j3)
    } else {
        None
    }
}

} // verus!
