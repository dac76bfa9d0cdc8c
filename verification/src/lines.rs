//! Line normalization and classification.
//!
//! A raw source line is turned into its normalized form by stripping a
//! `//` comment suffix and surrounding whitespace; blank results are dropped.
//! A normalized line is either a label declaration, written `(NAME)`, or a
//! content (instruction) line.

use vstd::prelude::*;
use vstd::string::*;

verus! {

/// Whitespace characters removed from the ends of a line.
pub open spec fn is_space_char(c: char) -> bool {
    c == ' ' || c == '\t' || c == '\r' || c == '\n'
}

/// Decimal digit.
pub open spec fn is_digit_char(c: char) -> bool {
    48 <= c as u32 && c as u32 <= 57
}

/// Position of the first occurrence of `c` in `s` at index `i` or later,
/// or `s.len()` when there is none.
pub open spec fn find_from(s: Seq<char>, c: char, i: int) -> int
    decreases s.len() - i,
{
    if i < 0 || i >= s.len() {
        s.len() as int
    } else if s[i] == c {
        i
    } else {
        find_from(s, c, i + 1)
    }
}

/// Position of the first `//` in `s` at index `i` or later, or `s.len()`.
pub open spec fn comment_from(s: Seq<char>, i: int) -> int
    decreases s.len() - i,
{
    if i < 0 || i + 1 >= s.len() {
        s.len() as int
    } else if s[i] == '/' && s[i + 1] == '/' {
        i
    } else {
        comment_from(s, i + 1)
    }
}

/// Position of the first non-whitespace character at index `i` or later.
pub open spec fn skip_spaces(s: Seq<char>, i: int) -> int
    decreases s.len() - i,
{
    if i < 0 || i >= s.len() {
        s.len() as int
    } else if is_space_char(s[i]) {
        skip_spaces(s, i + 1)
    } else {
        i
    }
}

/// End of the line once trailing whitespace before position `j` is dropped.
pub open spec fn rtrim_end(s: Seq<char>, j: int) -> int
    decreases j,
{
    if j <= 0 || j > s.len() {
        0
    } else if is_space_char(s[j - 1]) {
        rtrim_end(s, j - 1)
    } else {
        j
    }
}

/// `s` with leading and trailing whitespace removed.
pub open spec fn trim_spec(s: Seq<char>) -> Seq<char> {
    let a = skip_spaces(s, 0);
    let b = rtrim_end(s, s.len() as int);
    if a < b {
        s.subrange(a, b)
    } else {
        Seq::empty()
    }
}

/// The normalized form of one raw line: the part before any `//` comment,
/// trimmed of surrounding whitespace.
pub open spec fn clean_spec(s: Seq<char>) -> Seq<char> {
    trim_spec(s.subrange(0, comment_from(s, 0)))
}

/// A label declaration: delimited by a bracket pair, as in `(LOOP)`.
pub open spec fn is_label_spec(s: Seq<char>) -> bool {
    s.len() >= 1 && s[0] == '(' && s[s.len() - 1] == ')'
}

/// Position of the first bracket in `s` at index `i` or later, or `s.len()`.
pub open spec fn bracket_from(s: Seq<char>, i: int) -> int
    decreases s.len() - i,
{
    if i < 0 || i >= s.len() {
        s.len() as int
    } else if s[i] == '(' || s[i] == ')' {
        i
    } else {
        bracket_from(s, i + 1)
    }
}

/// The name declared by a label line: the characters between the opening
/// bracket and the next bracket.
pub open spec fn label_name_spec(s: Seq<char>) -> Seq<char>
    recommends
        is_label_spec(s),
{
    s.subrange(1, bracket_from(s, 1))
}

/// A token made of decimal digits only, and at least one of them.
pub open spec fn is_numeric(s: Seq<char>) -> bool {
    s.len() > 0 && forall|i: int| 0 <= i < s.len() ==> is_digit_char(s[i])
}

/// An address instruction whose target is a symbol rather than a literal.
pub open spec fn is_variable_spec(s: Seq<char>) -> bool {
    s.len() > 0 && s[0] == '@' && !is_numeric(s.skip(1))
}

/// Numeric value of a digit character.
pub open spec fn digit_val(c: char) -> nat
    recommends
        is_digit_char(c),
{
    (c as u32 - 48) as nat
}

/// Value of a decimal numeral.
pub open spec fn dec_val(s: Seq<char>) -> nat
    decreases s.len(),
{
    if s.len() == 0 {
        0
    } else {
        dec_val(s.drop_last()) * 10 + digit_val(s.last())
    }
}

/// The normalized, non-blank lines of a raw program, in order.
pub open spec fn normalize_lines(lines: Seq<Seq<char>>) -> Seq<Seq<char>>
    decreases lines.len(),
{
    if lines.len() == 0 {
        Seq::empty()
    } else {
        let rest = normalize_lines(lines.drop_last());
        let c = clean_spec(lines.last());
        if c.len() == 0 {
            rest
        } else {
            rest.push(c)
        }
    }
}

/// The content (non-label) lines of a normalized program, in order.
pub open spec fn content_lines(norm: Seq<Seq<char>>) -> Seq<Seq<char>>
    decreases norm.len(),
{
    if norm.len() == 0 {
        Seq::empty()
    } else {
        let rest = content_lines(norm.drop_last());
        if is_label_spec(norm.last()) {
            rest
        } else {
            rest.push(norm.last())
        }
    }
}

/// The characters of a source line, in order.
pub fn str_to_chars(s: &str) -> (r: Vec<char>)
    ensures
        r@ == s@,
{
    let n = s.unicode_len();
    let mut r: Vec<char> = Vec::new();
    let mut i: usize = 0;
    while i < n
        invariant
            n == s@.len(),
            i <= n,
            r@ == s@.take(i as int),
        decreases n - i,
    {
        let c = s.get_char(i);
        r.push(c);
        i = i + 1;
        proof {
            assert(s@.take(i as int) =~= s@.take(i - 1).push(s@[i - 1]));
        }
    }
    proof {
        assert(s@.take(n as int) =~= s@);
    }
    r
}

/// A copy of `v[a..b]`.
pub fn sub_chars(v: &Vec<char>, a: usize, b: usize) -> (r: Vec<char>)
    requires
        a <= b <= v.len(),
    ensures
        r@ == v@.subrange(a as int, b as int),
{
    let mut r: Vec<char> = Vec::new();
    let mut i: usize = a;
    while i < b
        invariant
            a <= i <= b <= v.len(),
            r@ == v@.subrange(a as int, i as int),
        decreases b - i,
    {
        r.push(v[i]);
        i = i + 1;
        proof {
            assert(v@.subrange(a as int, i as int) =~= v@.subrange(a as int, i - 1).push(
                v@[i - 1],
            ));
        }
    }
    r
}

/// Position of the first occurrence of `c` at index `i` or later.
pub fn find_char_from(v: &Vec<char>, c: char, i: usize) -> (r: usize)
    requires
        i <= v.len(),
    ensures
        r == find_from(v@, c, i as int),
        i <= r <= v.len(),
    decreases v.len() - i,
{
    if i >= v.len() {
        v.len()
    } else if v[i] == c {
        i
    } else {
        find_char_from(v, c, i + 1)
    }
}

fn find_comment_from(v: &Vec<char>, i: usize) -> (r: usize)
    requires
        i <= v.len(),
    ensures
        r == comment_from(v@, i as int),
        r <= v.len(),
    decreases v.len() - i,
{
    if v.len() == 0 || i >= v.len() - 1 {
        v.len()
    } else if v[i] == '/' && v[i + 1] == '/' {
        i
    } else {
        find_comment_from(v, i + 1)
    }
}

fn skip_spaces_from(v: &Vec<char>, i: usize) -> (r: usize)
    requires
        i <= v.len(),
    ensures
        r == skip_spaces(v@, i as int),
        i <= r <= v.len(),
    decreases v.len() - i,
{
    if i >= v.len() {
        v.len()
    } else {
        let c = v[i];
        if c == ' ' || c == '\t' || c == '\r' || c == '\n' {
            skip_spaces_from(v, i + 1)
        } else {
            i
        }
    }
}

fn rtrim_to(v: &Vec<char>, j: usize) -> (r: usize)
    requires
        j <= v.len(),
    ensures
        r == rtrim_end(v@, j as int),
        r <= j,
    decreases j,
{
    if j == 0 {
        0
    } else {
        let c = v[j - 1];
        if c == ' ' || c == '\t' || c == '\r' || c == '\n' {
            rtrim_to(v, j - 1)
        } else {
            j
        }
    }
}

/// The normalized form of one raw line: comment stripped, ends trimmed.
pub fn clean_line(v: &Vec<char>) -> (r: Vec<char>)
    ensures
        r@ == clean_spec(v@),
{
    let c = find_comment_from(v, 0);
    let pre = sub_chars(v, 0, c);
    let a = skip_spaces_from(&pre, 0);
    let b = rtrim_to(&pre, pre.len());
    if a < b {
        sub_chars(&pre, a, b)
    } else {
        let r: Vec<char> = Vec::new();
        proof {
            assert(r@ =~= Seq::<char>::empty());
        }
        r
    }
}

/// A normalized line that stands for an instruction: not blank, not a label.
pub fn valid_line(v: &Vec<char>) -> (b: bool)
    ensures
        b == (v@.len() > 0 && !is_label_spec(v@)),
{
    let is_empty = v.len() == 0;
    let is_label = v.len() >= 1 && v[0] == '(' && v[v.len() - 1] == ')';
    !(is_empty || is_label)
}

/// Whether a normalized line declares a label.
pub fn is_label(v: &Vec<char>) -> (b: bool)
    ensures
        b == is_label_spec(v@),
{
    v.len() >= 1 && v[0] == '(' && v[v.len() - 1] == ')'
}

fn find_bracket_from(v: &Vec<char>, i: usize) -> (r: usize)
    requires
        i <= v.len(),
    ensures
        r == bracket_from(v@, i as int),
        i <= r <= v.len(),
    decreases v.len() - i,
{
    if i >= v.len() {
        v.len()
    } else if v[i] == '(' || v[i] == ')' {
        i
    } else {
        find_bracket_from(v, i + 1)
    }
}

/// The name a label line declares.
pub fn label_name(v: &Vec<char>) -> (r: Vec<char>)
    requires
        v@.len() >= 1,
    ensures
        r@ == label_name_spec(v@),
{
    let d = find_bracket_from(v, 1);
    sub_chars(v, 1, d)
}

/// Whether every character of `v` is a decimal digit, and there is one.
pub fn is_numeric_chars(v: &Vec<char>) -> (b: bool)
    ensures
        b == is_numeric(v@),
{
    if v.len() == 0 {
        return false;
    }
    let mut i: usize = 0;
    while i < v.len()
        invariant
            i <= v.len(),
            forall|j: int| 0 <= j < i ==> is_digit_char(v@[j]),
        decreases v.len() - i,
    {
        let u = v[i] as u32;
        if !(48 <= u && u <= 57) {
            return false;
        }
        i = i + 1;
    }
    true
}

/// Whether a normalized line references a variable: an address instruction
/// whose target is not a numeral.
pub fn is_variable(v: &Vec<char>) -> (b: bool)
    ensures
        b == is_variable_spec(v@),
{
    if v.len() > 0 && v[0] == '@' {
        let t = sub_chars(v, 1, v.len());
        proof {
            assert(t@ =~= v@.skip(1));
        }
        !is_numeric_chars(&t)
    } else {
        false
    }
}

/// A longer numeral never has a smaller value than its prefix.
proof fn lemma_dec_val_prefix_le(s: Seq<char>, i: int)
    requires
        0 <= i <= s.len(),
    ensures
        dec_val(s.take(i)) <= dec_val(s),
    decreases s.len() - i,
{
    if i == s.len() {
        assert(s.take(i) =~= s);
    } else {
        lemma_dec_val_prefix_le(s, i + 1);
        assert(s.take(i + 1).drop_last() =~= s.take(i));
        assert(dec_val(s.take(i + 1)) == dec_val(s.take(i)) * 10 + digit_val(s.take(i + 1).last()));
    }
}

/// Value of a numeral token when it fits the 15-bit address range, and
/// rejection when it does not.
pub fn parse_decimal(tok: &Vec<char>) -> (r: Option<u16>)
    requires
        is_numeric(tok@),
    ensures
        match r {
            Some(v) => dec_val(tok@) <= 32767 && v == dec_val(tok@),
            None => dec_val(tok@) > 32767,
        },
{
    let mut acc: u32 = 0;
    let mut i: usize = 0;
    while i < tok.len()
        invariant
            is_numeric(tok@),
            i <= tok.len(),
            acc == dec_val(tok@.take(i as int)),
            acc <= 32767,
        decreases tok.len() - i,
    {
        let c = tok[i];
        assert(is_digit_char(tok@[i as int]));
        let d: u32 = c as u32 - 48;
        acc = acc * 10 + d;
        i = i + 1;
        proof {
            assert(tok@.take(i as int).drop_last() =~= tok@.take(i - 1));
            assert(tok@.take(i as int).last() == tok@[i - 1]);
        }
        if acc > 32767 {
            proof {
                lemma_dec_val_prefix_le(tok@, i as int);
            }
            return None;
        }
    }
    proof {
        assert(tok@.take(tok@.len() as int) =~= tok@);
    }
    Some(acc as u16)
}

/// The normalized, non-blank lines of a raw program, as character vectors.
pub fn normalize_program(program: &Vec<String>) -> (r: Vec<Vec<char>>)
    ensures
        r.deep_view() == normalize_lines(program.deep_view()),
{
    let mut r: Vec<Vec<char>> = Vec::new();
    let mut i: usize = 0;
    while i < program.len()
        invariant
            i <= program.len(),
            r.deep_view() == normalize_lines(program.deep_view().take(i as int)),
        decreases program.len() - i,
    {
        let chars = str_to_chars(program[i].as_str());
        let cleaned = clean_line(&chars);
        proof {
            assert(program.deep_view().take(i + 1).drop_last() =~= program.deep_view().take(
                i as int,
            ));
            assert(program.deep_view().take(i + 1).last() == program.deep_view()[i as int]);
            assert(program.deep_view()[i as int] == program@[i as int]@);
        }
        if cleaned.len() > 0 {
            let ghost prev = r.deep_view();
            let ghost cv = cleaned@;
            r.push(cleaned);
            proof {
                assert(forall|j: int| 0 <= j < prev.len() ==> r.deep_view()[j] == #[trigger] prev[j]);
                assert(r.deep_view()[prev.len() as int] == cv);
                assert(r.deep_view() =~= prev.push(cv));
            }
        }
        i = i + 1;
    }
    proof {
        assert(program.deep_view().take(program@.len() as int) =~= program.deep_view());
    }
    r
}

/// Normalization keeps at most as many lines as it was given.
pub proof fn lemma_normalize_len_le(lines: Seq<Seq<char>>)
    ensures
        normalize_lines(lines).len() <= lines.len(),
    decreases lines.len(),
{
    if lines.len() > 0 {
        lemma_normalize_len_le(lines.drop_last());
    }
}

/// Normalization drops every blank line.
pub proof fn lemma_normalize_no_blank(lines: Seq<Seq<char>>)
    ensures
        forall|j: int|
            0 <= j < normalize_lines(lines).len() ==> normalize_lines(lines)[j].len() > 0,
    decreases lines.len(),
{
    if lines.len() > 0 {
        lemma_normalize_no_blank(lines.drop_last());
        let rest = normalize_lines(lines.drop_last());
        let c = clean_spec(lines.last());
        if c.len() > 0 {
            assert(forall|j: int|
                0 <= j < rest.len() ==> #[trigger] rest.push(c)[j] == rest[j]);
            assert(rest.push(c)[rest.len() as int] == c);
        }
    }
}

/// The content lines are at most the normalized lines.
pub proof fn lemma_content_len_le(norm: Seq<Seq<char>>)
    ensures
        content_lines(norm).len() <= norm.len(),
    decreases norm.len(),
{
    if norm.len() > 0 {
        lemma_content_len_le(norm.drop_last());
    }
}

/// Front decomposition of the content lines.
pub proof fn lemma_content_front(norm: Seq<Seq<char>>)
    requires
        norm.len() > 0,
    ensures
        content_lines(norm) == if is_label_spec(norm.first()) {
            content_lines(norm.drop_first())
        } else {
            seq![norm.first()] + content_lines(norm.drop_first())
        },
    decreases norm.len(),
{
    if norm.len() == 1 {
        assert(norm.drop_last() =~= Seq::<Seq<char>>::empty());
        assert(norm.drop_first() =~= Seq::<Seq<char>>::empty());
        assert(norm.last() == norm.first());
        if !is_label_spec(norm.first()) {
            assert(content_lines(norm) =~= seq![norm.first()] + content_lines(norm.drop_first()));
        }
    } else {
        lemma_content_front(norm.drop_last());
        assert(norm.drop_last().first() == norm.first());
        assert(norm.drop_last().drop_first() =~= norm.drop_first().drop_last());
        assert(norm.drop_first().last() == norm.last());
        assert(norm.drop_first().len() > 0);
        if !is_label_spec(norm.first()) && !is_label_spec(norm.last()) {
            assert(seq![norm.first()] + content_lines(norm.drop_first()) =~= (seq![norm.first()]
                + content_lines(norm.drop_first().drop_last())).push(norm.last()));
        }
    }
}

} // verus!
