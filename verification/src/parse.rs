use vstd::prelude::*;

verus! {

/// A coordinate axis named by a rotation command.
#[derive(Clone, Copy, Debug, PartialEq, Eq, Structural)]
pub enum Axis {
    X,
    Y,
    Z,
}

/// A structural script error, fatal to script execution. Each variant
/// carries the offending lexeme — `None` standing for an unexpected end of
/// line — and the zero-based line number it was found on.
#[derive(Clone, Debug)]
pub enum ParseError {
    ExpectedNumber(Option<String>, usize),
    ExpectedUnsigned(Option<String>, usize),
    ExpectedName(Option<String>, usize),
    ExpectedAxis(Option<String>, usize),
    UnexpectedTrailing(String, usize),
    UnknownCommand(String, usize),
}

/// Horizontal whitespace: the ASCII whitespace characters other than the
/// newline, which ends a command instead of separating its words. The
/// script language is ASCII, so the lexer's character classes are
/// deliberately ASCII-only: text outside ASCII is never whitespace and
/// never a letter here.
pub open spec fn spec_is_linespace(c: char) -> bool {
    c == ' ' || c == '\t' || c == '\r' || c == '\u{b}' || c == '\u{c}'
}

/// Any ASCII whitespace, newline included: what ends a lexeme.
pub open spec fn spec_is_space(c: char) -> bool {
    spec_is_linespace(c) || c == '\n'
}

/// An ASCII letter (the only letters the script language knows).
pub open spec fn spec_is_alpha(c: char) -> bool {
    (97 <= c as u32 <= 122) || (65 <= c as u32 <= 90)
}

/// An ASCII decimal digit.
pub open spec fn spec_is_digit(c: char) -> bool {
    48 <= c as u32 <= 57
}

/// The first position at or after `pos` holding something other than
/// horizontal whitespace (the length of `s` if there is none).
pub open spec fn spec_skip_linespace(s: Seq<char>, pos: int) -> int
    decreases s.len() - pos,
{
    if pos < 0 || pos >= s.len() {
        s.len() as int
    } else if spec_is_linespace(s[pos]) {
        spec_skip_linespace(s, pos + 1)
    } else {
        pos
    }
}

/// The end of the lexeme starting at `pos`: the first position at or after
/// `pos` holding whitespace (the length of `s` if there is none).
pub open spec fn spec_lexeme_end(s: Seq<char>, pos: int) -> int
    decreases s.len() - pos,
{
    if pos < 0 || pos >= s.len() {
        s.len() as int
    } else if !spec_is_space(s[pos]) {
        spec_lexeme_end(s, pos + 1)
    } else {
        pos
    }
}

/// What `spec_skip_linespace` lands on: everything skipped was horizontal
/// whitespace, and the landing character (if any) is not.
pub proof fn lemma_skip_linespace(s: Seq<char>, pos: int)
    requires
        0 <= pos <= s.len(),
    ensures
        pos <= spec_skip_linespace(s, pos) <= s.len(),
        spec_skip_linespace(s, pos) < s.len() ==> !spec_is_linespace(
            s[spec_skip_linespace(s, pos)],
        ),
        forall|j: int| pos <= j < spec_skip_linespace(s, pos) ==> spec_is_linespace(#[trigger] s[j]),
    decreases s.len() - pos,
{
    if pos < s.len() && spec_is_linespace(s[pos]) {
        lemma_skip_linespace(s, pos + 1);
    }
}

/// What `spec_lexeme_end` lands on: everything before it (from `pos`) is
/// non-whitespace, and the landing character (if any) is whitespace.
pub proof fn lemma_lexeme_end(s: Seq<char>, pos: int)
    requires
        0 <= pos <= s.len(),
    ensures
        pos <= spec_lexeme_end(s, pos) <= s.len(),
        spec_lexeme_end(s, pos) < s.len() ==> spec_is_space(s[spec_lexeme_end(s, pos)]),
        forall|j: int| pos <= j < spec_lexeme_end(s, pos) ==> !spec_is_space(#[trigger] s[j]),
    decreases s.len() - pos,
{
    if pos < s.len() && !spec_is_space(s[pos]) {
        lemma_lexeme_end(s, pos + 1);
    }
}

/// Is `c` horizontal whitespace?
pub fn is_linespace(c: char) -> (r: bool)
    ensures
        r == spec_is_linespace(c),
{
    c == ' ' || c == '\t' || c == '\r' || c == '\u{b}' || c == '\u{c}'
}

/// Advance `pos` past any horizontal whitespace.
pub fn skip_linespace(s: &str, pos: usize) -> (r: usize)
    requires
        pos <= s@.len(),
    ensures
        r == spec_skip_linespace(s@, pos as int),
        pos <= r <= s@.len(),
{
    let len = s.unicode_len();
    let mut i = pos;
    while i < len
        invariant
            pos <= i <= len,
            len == s@.len(),
            spec_skip_linespace(s@, pos as int) == spec_skip_linespace(s@, i as int),
        decreases len - i,
    {
        let c = s.get_char(i);
        if !is_linespace(c) {
            return i;
        }
        i = i + 1;
    }
    i
}

/// Does the input at `pos` begin a comment (two slashes)?
pub fn starts_with_comment(s: &str, pos: usize) -> (r: bool)
    requires
        pos <= s@.len(),
    ensures
        r == (pos + 1 < s@.len() && s@[pos as int] == '/' && s@[pos as int + 1] == '/'),
{
    let len = s.unicode_len();
    len >= 1 && pos < len - 1 && s.get_char(pos) == '/' && s.get_char(pos + 1) == '/'
}

/// The span (start, end) of the next lexeme at or after `pos`: the first
/// maximal run of non-whitespace characters. `None` when only horizontal
/// whitespace remains.
pub fn next_lexeme(s: &str, pos: usize) -> (r: Option<(usize, usize)>)
    requires
        pos <= s@.len(),
    ensures
        match r {
            Some(span) => pos <= span.0 <= span.1 <= s@.len() && span.0 < s@.len() && span.0
                == spec_skip_linespace(s@, pos as int) && span.1 == spec_lexeme_end(
                s@,
                span.0 as int,
            ),
            None => spec_skip_linespace(s@, pos as int) == s@.len(),
        },
{
    let len = s.unicode_len();
    let w = skip_linespace(s, pos);
    if w >= len {
        return None;
    }
    let mut e = w;
    while e < len
        invariant
            pos <= w <= e <= len,
            len == s@.len(),
            w == spec_skip_linespace(s@, pos as int),
            spec_lexeme_end(s@, w as int) == spec_lexeme_end(s@, e as int),
        decreases len - e,
    {
        let c = s.get_char(e);
        if is_linespace(c) || c == '\n' {
            return Some((w, e));
        }
        e = e + 1;
    }
    Some((w, e))
}

/// A character allowed inside a name after its opening letter.
pub open spec fn spec_is_name_char(c: char) -> bool {
    spec_is_alpha(c) || spec_is_digit(c) || c == '_'
}

/// The name check mirrors the script language's loose rule: a lexeme opening
/// with a letter must continue with letters, digits and underscores; a
/// lexeme opening with anything else is accepted as it stands.
pub open spec fn spec_is_name_lexeme(lex: Seq<char>) -> bool {
    lex.len() >= 1 && (spec_is_alpha(lex[0]) ==> forall|j: int|
        1 <= j < lex.len() ==> spec_is_name_char(#[trigger] lex[j]))
}

/// The input holds a single script line: no embedded newline.
pub open spec fn spec_single_line(s: Seq<char>) -> bool {
    forall|j: int| 0 <= j < s.len() ==> s[j] != '\n'
}

/// Is `c` an ASCII letter?
pub fn is_alpha(c: char) -> (r: bool)
    ensures
        r == spec_is_alpha(c),
{
    let u = c as u32;
    (97 <= u && u <= 122) || (65 <= u && u <= 90)
}

/// Is `c` an ASCII letter, digit or underscore?
pub fn is_name_char(c: char) -> (r: bool)
    ensures
        r == spec_is_name_char(c),
{
    let u = c as u32;
    (97 <= u && u <= 122) || (65 <= u && u <= 90) || (48 <= u && u <= 57) || c == '_'
}

/// Take the next lexeme as a name. The result is the lexeme's span; a
/// missing lexeme or one that fails the name check comes back as
/// `ExpectedName` carrying the offender and the line number.
pub fn next_name(s: &str, pos: usize, linum: usize) -> (r: Result<(usize, usize), ParseError>)
    requires
        pos <= s@.len(),
        spec_single_line(s@),
    ensures
        ({
            let w = spec_skip_linespace(s@, pos as int);
            let e = spec_lexeme_end(s@, w);
            let lex = s@.subrange(w, e);
            match r {
                Ok(span) => w < s@.len() && span == ((w as usize, e as usize))
                    && spec_is_name_lexeme(lex),
                Err(pe) => match pe {
                    ParseError::ExpectedName(opt, l) => l == linum && (match opt {
                        Option::None => w == s@.len(),
                        Option::Some(t) => w < s@.len() && t@ == lex && !spec_is_name_lexeme(lex),
                    }),
                    _ => false,
                },
            }
        }),
{
    match next_lexeme(s, pos) {
        None => Err(ParseError::ExpectedName(None, linum)),
        Some((w, e)) => {
            let ghost lex = s@.subrange(w as int, e as int);
            proof {
                lemma_skip_linespace(s@, pos as int);
                lemma_lexeme_end(s@, w as int);
                assert(!spec_is_linespace(s@[w as int]));
                assert(s@[w as int] != '\n');
                assert(e > w);
                assert(lex[0] == s@[w as int]);
            }
            let c0 = s.get_char(w);
            if is_alpha(c0) {
                let mut j = w + 1;
                while j < e
                    invariant
                        w < j <= e <= s@.len(),
                        e == spec_lexeme_end(s@, w as int),
                        w == spec_skip_linespace(s@, pos as int),
                        w < s@.len(),
                        lex == s@.subrange(w as int, e as int),
                        spec_is_alpha(lex[0]),
                        forall|k: int| w < k < j ==> spec_is_name_char(#[trigger] s@[k]),
                    decreases e - j,
                {
                    let c = s.get_char(j);
                    if !is_name_char(c) {
                        proof {
                            assert(lex[j - w] == s@[j as int]);
                            assert(!spec_is_name_lexeme(lex));
                        }
                        let t = s.substring_char(w, e).to_owned();
                        return Err(ParseError::ExpectedName(Some(t), linum));
                    }
                    j = j + 1;
                }
                proof {
                    assert forall|k: int| 1 <= k < lex.len() implies spec_is_name_char(
                        #[trigger] lex[k],
                    ) by {
                        assert(lex[k] == s@[w + k]);
                    }
                }
            }
            Ok((w, e))
        },
    }
}

/// The digit characters of an unsigned-integer lexeme: everything after an
/// optional leading plus sign.
pub open spec fn spec_uint_digits(lex: Seq<char>) -> Seq<char> {
    if lex.len() >= 1 && lex[0] == '+' {
        lex.subrange(1, lex.len() as int)
    } else {
        lex
    }
}

/// An unsigned-integer lexeme: an optional plus sign, then one or more
/// decimal digits and nothing else.
pub open spec fn spec_is_uint_lexeme(lex: Seq<char>) -> bool {
    let digits = spec_uint_digits(lex);
    lex.len() >= 1 && digits.len() >= 1 && (forall|j: int|
        0 <= j < digits.len() ==> spec_is_digit(#[trigger] digits[j]))
}

/// The numeric value of a run of decimal digit characters, most significant
/// first.
pub open spec fn spec_uint_value(digits: Seq<char>) -> int
    decreases digits.len(),
{
    if digits.len() == 0 {
        0
    } else {
        spec_uint_value(digits.drop_last()) * 10 + (digits.last() as u32 - 48)
    }
}

/// A run of digits has a non-negative value.
proof fn lemma_uint_value_nonneg(digits: Seq<char>)
    requires
        forall|j: int| 0 <= j < digits.len() ==> spec_is_digit(#[trigger] digits[j]),
    ensures
        spec_uint_value(digits) >= 0,
    decreases digits.len(),
{
    if digits.len() > 0 {
        lemma_uint_value_nonneg(digits.drop_last());
    }
}

/// Appending digits to a run of digits never shrinks its value.
proof fn lemma_uint_value_extend(digits: Seq<char>, k: int)
    requires
        0 <= k <= digits.len(),
        forall|j: int| 0 <= j < digits.len() ==> spec_is_digit(#[trigger] digits[j]),
    ensures
        spec_uint_value(digits) >= spec_uint_value(digits.subrange(0, k)),
    decreases digits.len() - k,
{
    if k == digits.len() {
        assert(digits.subrange(0, k) =~= digits);
    } else {
        lemma_uint_value_extend(digits, k + 1);
        let shorter = digits.subrange(0, k);
        let longer = digits.subrange(0, k + 1);
        assert(longer.drop_last() =~= shorter);
        assert(longer.last() == digits[k]);
        lemma_uint_value_nonneg(shorter);
    }
}

/// Take the next lexeme as an unsigned integer. The result is the value and
/// the position after the lexeme; a missing lexeme, one that is not a plain
/// decimal number, or a number too large for `usize` comes back as
/// `ExpectedUnsigned`.
pub fn next_usize(s: &str, pos: usize, linum: usize) -> (r: Result<(usize, usize), ParseError>)
    requires
        pos <= s@.len(),
    ensures
        ({
            let w = spec_skip_linespace(s@, pos as int);
            let e = spec_lexeme_end(s@, w);
            let lex = s@.subrange(w, e);
            let digits = spec_uint_digits(lex);
            match r {
                Ok(ve) => w < s@.len() && ve.1 == e && spec_is_uint_lexeme(lex)
                    && spec_uint_value(digits) <= usize::MAX && ve.0 == spec_uint_value(digits),
                Err(pe) => match pe {
                    ParseError::ExpectedUnsigned(opt, l) => l == linum && (match opt {
                        Option::None => w == s@.len(),
                        Option::Some(t) => w < s@.len() && t@ == lex && (!spec_is_uint_lexeme(lex)
                            || spec_uint_value(digits) > usize::MAX),
                    }),
                    _ => false,
                },
            }
        }),
{
    match next_lexeme(s, pos) {
        None => Err(ParseError::ExpectedUnsigned(None, linum)),
        Some((w, e)) => {
            let ghost lex = s@.subrange(w as int, e as int);
            let ghost digits = spec_uint_digits(lex);
            proof {
                lemma_skip_linespace(s@, pos as int);
                lemma_lexeme_end(s@, w as int);
            }
            if w == e {
                let t = s.substring_char(w, e).to_owned();
                return Err(ParseError::ExpectedUnsigned(Some(t), linum));
            }
            proof {
                assert(lex[0] == s@[w as int]);
            }
            let c0 = s.get_char(w);
            let dstart: usize = if c0 == '+' {
                w + 1
            } else {
                w
            };
            proof {
                assert(digits =~= s@.subrange(dstart as int, e as int));
            }
            if dstart == e {
                // a bare plus sign has no digits
                let t = s.substring_char(w, e).to_owned();
                return Err(ParseError::ExpectedUnsigned(Some(t), linum));
            }
            let mut acc: usize = 0;
            let mut j = dstart;
            while j < e
                invariant
                    w <= dstart <= j <= e <= s@.len(),
                    w < s@.len(),
                    w == spec_skip_linespace(s@, pos as int),
                    e == spec_lexeme_end(s@, w as int),
                    dstart < e,
                    lex == s@.subrange(w as int, e as int),
                    digits == spec_uint_digits(lex),
                    digits == s@.subrange(dstart as int, e as int),
                    lex.len() >= 1,
                    forall|k: int| dstart <= k < j ==> spec_is_digit(#[trigger] s@[k]),
                    acc == spec_uint_value(s@.subrange(dstart as int, j as int)),
                decreases e - j,
            {
                let c = s.get_char(j);
                let u = c as u32;
                if !(48 <= u && u <= 57) {
                    proof {
                        assert(digits[j - dstart] == s@[j as int]);
                        assert(!spec_is_digit(digits[j - dstart]));
                        assert(!spec_is_uint_lexeme(lex));
                    }
                    let t = s.substring_char(w, e).to_owned();
                    return Err(ParseError::ExpectedUnsigned(Some(t), linum));
                }
                let d = (u - 48) as usize;
                let ghost prefix = s@.subrange(dstart as int, j as int);
                let ghost prefix1 = s@.subrange(dstart as int, j + 1);
                proof {
                    assert(prefix1.drop_last() =~= prefix);
                    assert(prefix1.last() == s@[j as int]);
                }
                if acc > (usize::MAX - d) / 10 {
                    // the digits read so far already overflow the machine
                    // word, so the full number cannot fit either way
                    proof {
                        assert(spec_uint_value(prefix1) > usize::MAX);
                        if forall|k: int| j < k < e ==> spec_is_digit(#[trigger] s@[k]) {
                            assert(forall|k: int|
                                0 <= k < digits.len() ==> spec_is_digit(#[trigger] digits[k]))
                                by {
                                assert(forall|k: int|
                                    0 <= k < digits.len() ==> digits[k] == s@[dstart + k]);
                            }
                            lemma_uint_value_extend(digits, j + 1 - dstart);
                            assert(digits.subrange(0, j + 1 - dstart) =~= prefix1);
                            assert(spec_uint_value(digits) > usize::MAX);
                        } else {
                            let k = choose|k: int|
                                j < k < e && !spec_is_digit(#[trigger] s@[k]);
                            assert(digits[k - dstart] == s@[k]);
                            assert(!spec_is_uint_lexeme(lex));
                        }
                    }
                    let t = s.substring_char(w, e).to_owned();
                    return Err(ParseError::ExpectedUnsigned(Some(t), linum));
                }
                acc = acc * 10 + d;
                j = j + 1;
            }
            proof {
                assert(s@.subrange(dstart as int, j as int) =~= digits);
                assert forall|k: int| 0 <= k < digits.len() implies spec_is_digit(
                    #[trigger] digits[k],
                ) by {
                    assert(digits[k] == s@[dstart + k]);
                }
            }
            Ok((acc, e))
        },
    }
}

/// Take the next lexeme as an axis name: exactly "x", "y" or "z".
pub fn next_axis(s: &str, pos: usize, linum: usize) -> (r: Result<(Axis, usize), ParseError>)
    requires
        pos <= s@.len(),
    ensures
        ({
            let w = spec_skip_linespace(s@, pos as int);
            let e = spec_lexeme_end(s@, w);
            let lex = s@.subrange(w, e);
            match r {
                Ok(ax) => w < s@.len() && ax.1 == e && ((lex == seq!['x'] && ax.0 == Axis::X) || (
                lex == seq!['y'] && ax.0 == Axis::Y) || (lex == seq!['z'] && ax.0 == Axis::Z)),
                Err(pe) => match pe {
                    ParseError::ExpectedAxis(opt, l) => l == linum && (match opt {
                        Option::None => w == s@.len(),
                        Option::Some(t) => w < s@.len() && t@ == lex && lex != seq!['x'] && lex
                            != seq!['y'] && lex != seq!['z'],
                    }),
                    _ => false,
                },
            }
        }),
{
    match next_lexeme(s, pos) {
        None => Err(ParseError::ExpectedAxis(None, linum)),
        Some((w, e)) => {
            let ghost lex = s@.subrange(w as int, e as int);
            proof {
                lemma_skip_linespace(s@, pos as int);
                lemma_lexeme_end(s@, w as int);
            }
            if e - w == 1 {
                let c = s.get_char(w);
                proof {
                    assert(lex =~= seq![s@[w as int]]);
                }
                if c == 'x' {
                    return Ok((Axis::X, e));
                }
                if c == 'y' {
                    return Ok((Axis::Y, e));
                }
                if c == 'z' {
                    return Ok((Axis::Z, e));
                }
            }
            proof {
                assert(lex.len() == e - w);
                if lex.len() == 1 {
                    assert(lex =~= seq![lex[0]]);
                }
            }
            let t = s.substring_char(w, e).to_owned();
            Err(ParseError::ExpectedAxis(Some(t), linum))
        },
    }
}

/// The way a bad token is shown in an error message: the lexeme in single
/// quotes, or "end of line" where the line ended too soon.
pub fn err_display_eol_or_lexeme(optlex: Option<&str>) -> (r: String)
    ensures
        r@ == match optlex {
            Option::Some(lexeme) => seq!['\''] + lexeme@ + seq!['\''],
            Option::None => "end of line"@,
        },
{
    match optlex {
        Some(lexeme) => {
            proof {
                reveal_strlit("'");
            }
            let mut s = String::new();
            s.append("'");
            s.append(lexeme);
            s.append("'");
            proof {
                assert(s@ =~= seq!['\''] + lexeme@ + seq!['\'']);
            }
            s
        },
        None => "end of line".to_owned(),
    }
}

} // verus!
