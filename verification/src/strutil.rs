//! Small verified helpers for working with strings as sequences of chars.

use vstd::prelude::*;

verus! {

/// Lexicographic "strictly less than" on character sequences,
/// comparing by Unicode scalar value.
pub open spec fn chars_lt(a: Seq<char>, b: Seq<char>) -> bool
    decreases a.len(),
{
    if b.len() == 0 {
        false
    } else if a.len() == 0 {
        true
    } else if (a[0] as u32) < (b[0] as u32) {
        true
    } else if a[0] == b[0] {
        chars_lt(a.skip(1), b.skip(1))
    } else {
        false
    }
}

/// Equality of two string slices, by character sequence.
pub fn str_eq(a: &str, b: &str) -> (r: bool)
    ensures
        r == (a@ == b@),
{
    let a_len = a.unicode_len();
    let b_len = b.unicode_len();
    if a_len != b_len {
        return false;
    }
    let mut i: usize = 0;
    while i < a_len
        invariant
            i <= a_len,
            a_len == a@.len(),
            b_len == b@.len(),
            a_len == b_len,
            forall|j: int| 0 <= j < i ==> a@[j] == b@[j],
        decreases a_len - i,
    {
        if a.get_char(i) != b.get_char(i) {
            return false;
        }
        i = i + 1;
    }
    proof {
        assert(a@ =~= b@);
    }
    true
}

/// A name with every underscore replaced by a dash.
pub open spec fn dashed(s: Seq<char>) -> Seq<char> {
    s.map_values(|c: char| if c == '_' { '-' } else { c })
}

/// Replaces every underscore with a dash, as package names require.
pub fn dash_name(s: &str) -> (r: String)
    ensures
        r@ == dashed(s@),
{
    let n = s.unicode_len();
    let mut out = String::new();
    let mut i: usize = 0;
    while i < n
        invariant
            i <= n,
            n == s@.len(),
            out@ == dashed(s@.take(i as int)),
        decreases n - i,
    {
        let c = s.get_char(i);
        if c == '_' {
            out.append("-");
            proof {
                reveal_strlit("-");
                assert(out@ =~= dashed(s@.take(i + 1)));
            }
        } else {
            let piece = s.substring_char(i, i + 1);
            out.append(piece);
            proof {
                assert(out@ =~= dashed(s@.take(i + 1)));
            }
        }
        i = i + 1;
    }
    proof {
        assert(s@.take(n as int) =~= s@);
    }
    out
}

/// The decimal digit character for a value below ten.
pub open spec fn dec_digit(n: u64) -> char {
    if n == 0 {
        '0'
    } else if n == 1 {
        '1'
    } else if n == 2 {
        '2'
    } else if n == 3 {
        '3'
    } else if n == 4 {
        '4'
    } else if n == 5 {
        '5'
    } else if n == 6 {
        '6'
    } else if n == 7 {
        '7'
    } else if n == 8 {
        '8'
    } else {
        '9'
    }
}

/// The decimal rendering of a number, most significant digit first,
/// with no leading zeros (a single zero for zero itself).
pub open spec fn dec_str(n: u64) -> Seq<char>
    decreases n,
{
    if n < 10 {
        seq![dec_digit(n)]
    } else {
        dec_str(n / 10).push(dec_digit(n % 10))
    }
}

fn digit_str(d: u64) -> (r: &'static str)
    requires
        d < 10,
    ensures
        r@ == seq![dec_digit(d)],
{
    proof {
        reveal_strlit("0");
        reveal_strlit("1");
        reveal_strlit("2");
        reveal_strlit("3");
        reveal_strlit("4");
        reveal_strlit("5");
        reveal_strlit("6");
        reveal_strlit("7");
        reveal_strlit("8");
        reveal_strlit("9");
    }
    let r = match d {
        0 => "0",
        1 => "1",
        2 => "2",
        3 => "3",
        4 => "4",
        5 => "5",
        6 => "6",
        7 => "7",
        8 => "8",
        _ => "9",
    };
    proof {
        assert(r@ =~= seq![dec_digit(d)]);
    }
    r
}

/// Renders a number in decimal.
pub fn u64_to_dec(n: u64) -> (r: String)
    ensures
        r@ == dec_str(n),
    decreases n,
{
    if n < 10 {
        digit_str(n).to_owned()
    } else {
        let mut s = u64_to_dec(n / 10);
        s.append(digit_str(n % 10));
        proof {
            assert(s@ =~= dec_str(n));
        }
        s
    }
}

/// Whether a character is a decimal digit.
pub open spec fn is_dec_digit(c: char) -> bool {
    c == '0' || c == '1' || c == '2' || c == '3' || c == '4' || c == '5' || c == '6' || c == '7'
        || c == '8' || c == '9'
}

/// The numeric value of a decimal digit character.
pub open spec fn digit_val(c: char) -> nat {
    if c == '0' {
        0
    } else if c == '1' {
        1
    } else if c == '2' {
        2
    } else if c == '3' {
        3
    } else if c == '4' {
        4
    } else if c == '5' {
        5
    } else if c == '6' {
        6
    } else if c == '7' {
        7
    } else if c == '8' {
        8
    } else {
        9
    }
}

/// The value of a sequence of decimal digits, most significant first;
/// the empty sequence has value zero.
pub open spec fn digits_val(s: Seq<char>) -> nat
    decreases s.len(),
{
    if s.len() == 0 {
        0
    } else {
        digits_val(s.drop_last()) * 10 + digit_val(s.last())
    }
}

/// Parsing the decimal rendering of a number gives the number back.
pub proof fn lemma_dec_str_val(n: u64)
    ensures
        forall|i: int| 0 <= i < dec_str(n).len() ==> is_dec_digit(#[trigger] dec_str(n)[i]),
        digits_val(dec_str(n)) == n,
    decreases n,
{
    if n < 10 {
        assert(dec_str(n) =~= seq![dec_digit(n)]);
        assert(dec_str(n).drop_last() =~= Seq::<char>::empty());
        assert(digits_val(Seq::<char>::empty()) == 0);
        assert(digits_val(dec_str(n)) == digits_val(dec_str(n).drop_last()) * 10 + digit_val(
            dec_str(n).last(),
        ));
        assert(digit_val(dec_digit(n)) == n);
    } else {
        lemma_dec_str_val(n / 10);
        assert(dec_str(n) == dec_str(n / 10).push(dec_digit(n % 10)));
        assert(dec_str(n).drop_last() =~= dec_str(n / 10));
        assert(dec_str(n).last() == dec_digit(n % 10));
        assert(digits_val(dec_str(n)) == digits_val(dec_str(n / 10)) * 10 + digit_val(
            dec_digit(n % 10),
        ));
        assert(digit_val(dec_digit(n % 10)) == n % 10);
    }
}

fn char_digit_val(c: char) -> (r: Option<u64>)
    ensures
        match r {
            Some(v) => is_dec_digit(c) && v == digit_val(c) && v < 10,
            None => !is_dec_digit(c),
        },
{
    match c {
        '0' => Some(0),
        '1' => Some(1),
        '2' => Some(2),
        '3' => Some(3),
        '4' => Some(4),
        '5' => Some(5),
        '6' => Some(6),
        '7' => Some(7),
        '8' => Some(8),
        '9' => Some(9),
        _ => None,
    }
}

/// Parses a sequence of decimal digits; fails on any other character,
/// on the empty string, and on values that do not fit in a machine word.
pub fn parse_dec(s: &str) -> (r: Option<u64>)
    ensures
        match r {
            Some(v) => s@.len() > 0 && (forall|i: int|
                0 <= i < s@.len() ==> is_dec_digit(#[trigger] s@[i])) && v == digits_val(s@),
            None => s@.len() == 0 || (exists|i: int|
                0 <= i < s@.len() && !is_dec_digit(#[trigger] s@[i])) || digits_val(s@)
                > u64::MAX,
        },
{
    let n = s.unicode_len();
    if n == 0 {
        return None;
    }
    let mut acc: u64 = 0;
    let mut i: usize = 0;
    while i < n
        invariant
            i <= n,
            n == s@.len(),
            forall|j: int| 0 <= j < i ==> is_dec_digit(#[trigger] s@[j]),
            acc == digits_val(s@.take(i as int)),
        decreases n - i,
    {
        let c = s.get_char(i);
        let d = match char_digit_val(c) {
            Some(d) => d,
            None => {
                return None;
            },
        };
        if acc > (u64::MAX - d) / 10 {
            proof {
                assert(s@.take(i + 1).drop_last() =~= s@.take(i as int));
                lemma_digits_val_monotone(s@, i + 1);
            }
            return None;
        }
        acc = acc * 10 + d;
        proof {
            assert(s@.take(i + 1).drop_last() =~= s@.take(i as int));
        }
        i = i + 1;
    }
    proof {
        assert(s@.take(n as int) =~= s@);
    }
    Some(acc)
}

/// The value of a prefix of a digit string is no more than the whole.
proof fn lemma_digits_val_monotone(s: Seq<char>, i: int)
    requires
        0 <= i <= s.len(),
    ensures
        digits_val(s.take(i)) <= digits_val(s),
    decreases s.len() - i,
{
    if i < s.len() {
        lemma_digits_val_monotone(s, i + 1);
        assert(s.take(i + 1).drop_last() =~= s.take(i));
        assert(digits_val(s.take(i)) <= digits_val(s.take(i + 1)));
    } else {
        assert(s.take(i) =~= s);
    }
}

/// Whether one character sequence begins with another.
pub open spec fn starts_with(s: Seq<char>, p: Seq<char>) -> bool {
    p.len() <= s.len() && s.take(p.len() as int) == p
}

/// Whether the string begins with the given prefix, by character.
pub fn str_starts_with(s: &str, p: &str) -> (r: bool)
    ensures
        r == starts_with(s@, p@),
{
    let sn = s.unicode_len();
    let pn = p.unicode_len();
    if pn > sn {
        return false;
    }
    let mut i: usize = 0;
    while i < pn
        invariant
            i <= pn,
            pn <= sn,
            sn == s@.len(),
            pn == p@.len(),
            forall|j: int| 0 <= j < i ==> s@[j] == p@[j],
        decreases pn - i,
    {
        if s.get_char(i) != p.get_char(i) {
            proof {
                assert(s@.take(pn as int)[i as int] != p@[i as int]);
            }
            return false;
        }
        i = i + 1;
    }
    proof {
        assert(s@.take(pn as int) =~= p@);
    }
    true
}

/// Extracts the characters from `from` (inclusive) to `to` (exclusive)
/// as an owned string.
pub fn substr(s: &str, from: usize, to: usize) -> (r: String)
    requires
        from <= to <= s@.len(),
    ensures
        r@ == s@.subrange(from as int, to as int),
{
    s.substring_char(from, to).to_owned()
}

/// Splitting a text into lines at every newline character; a text
/// without newlines is a single line, and the empty text is one empty
/// line.
pub open spec fn split_lines_of(s: Seq<char>) -> Seq<Seq<char>>
    decreases s.len(),
{
    if s.len() == 0 {
        seq![Seq::<char>::empty()]
    } else if s[0] == '\n' {
        seq![Seq::<char>::empty()] + split_lines_of(s.skip(1))
    } else {
        let rest = split_lines_of(s.skip(1));
        seq![seq![s[0]] + rest[0]] + rest.skip(1)
    }
}

/// Splitting text that begins with a newline-free line followed by a
/// newline yields that line and then the split of the remainder.
proof fn lemma_split_lines_step(line: Seq<char>, rest: Seq<char>)
    requires
        !line.contains('\n'),
    ensures
        split_lines_of(line + seq!['\n'] + rest) =~= seq![line] + split_lines_of(rest),
    decreases line.len(),
{
    let s = line + seq!['\n'] + rest;
    if line.len() == 0 {
        assert(line =~= Seq::<char>::empty());
        assert(s[0] == '\n');
        assert(s.skip(1) =~= rest);
    } else {
        assert(s[0] == line[0]);
        assert(s[0] != '\n') by {
            if line[0] == '\n' {
                assert(line.contains('\n'));
            }
        }
        assert(s.skip(1) =~= line.skip(1) + seq!['\n'] + rest);
        assert(!line.skip(1).contains('\n')) by {
            if line.skip(1).contains('\n') {
                let k = choose|k: int| 0 <= k < line.skip(1).len() && line.skip(1)[k] == '\n';
                assert(line[k + 1] == '\n');
                assert(line.contains('\n'));
            }
        }
        lemma_split_lines_step(line.skip(1), rest);
        let inner = split_lines_of(s.skip(1));
        assert(inner =~= seq![line.skip(1)] + split_lines_of(rest));
        assert(inner[0] == line.skip(1));
        assert(inner.skip(1) =~= split_lines_of(rest));
        assert(split_lines_of(s) == seq![seq![s[0]] + inner[0]] + inner.skip(1));
        assert(seq![s[0]] + line.skip(1) =~= line);
    }
}

/// Splitting a newline-free text yields that one line.
proof fn lemma_split_lines_single(line: Seq<char>)
    requires
        !line.contains('\n'),
    ensures
        split_lines_of(line) =~= seq![line],
    decreases line.len(),
{
    if line.len() == 0 {
        assert(line =~= Seq::<char>::empty());
    } else {
        assert(line[0] != '\n') by {
            if line[0] == '\n' {
                assert(line.contains('\n'));
            }
        }
        assert(!line.skip(1).contains('\n')) by {
            if line.skip(1).contains('\n') {
                let k = choose|k: int| 0 <= k < line.skip(1).len() && line.skip(1)[k] == '\n';
                assert(line[k + 1] == '\n');
                assert(line.contains('\n'));
            }
        }
        lemma_split_lines_single(line.skip(1));
        let inner = split_lines_of(line.skip(1));
        assert(inner =~= seq![line.skip(1)]);
        assert(inner[0] == line.skip(1));
        assert(inner.skip(1) =~= Seq::<Seq<char>>::empty());
        assert(split_lines_of(line) == seq![seq![line[0]] + inner[0]] + inner.skip(1));
        assert(seq![line[0]] + line.skip(1) =~= line);
    }
}

/// Splits a text into its lines.
pub fn split_lines(s: &str) -> (r: Vec<String>)
    ensures
        r.deep_view() == split_lines_of(s@),
        r.len() >= 1,
{
    let n = s.unicode_len();
    let mut out: Vec<String> = Vec::new();
    let mut line_start: usize = 0;
    let mut i: usize = 0;
    proof {
        assert(s@.skip(0) =~= s@);
        assert(out.deep_view() + split_lines_of(s@) =~= split_lines_of(s@));
    }
    while i < n
        invariant
            line_start <= i <= n,
            n == s@.len(),
            forall|j: int| line_start <= j < i ==> s@[j] != '\n',
            split_lines_of(s@) =~= out.deep_view() + split_lines_of(s@.skip(line_start as int)),
        decreases n - i,
    {
        if s.get_char(i) == '\n' {
            let line = substr(s, line_start, i);
            out.push(line);
            proof {
                let tail = s@.skip(line_start as int);
                assert(!line@.contains('\n')) by {
                    if line@.contains('\n') {
                        let k = choose|k: int| 0 <= k < line@.len() && line@[k] == '\n';
                        assert(s@[line_start + k] == '\n');
                    }
                }
                assert(tail =~= line@ + seq!['\n'] + s@.skip(i + 1));
                lemma_split_lines_step(line@, s@.skip(i + 1));
            }
            line_start = i + 1;
        }
        i = i + 1;
    }
    let line = substr(s, line_start, n);
    out.push(line);
    proof {
        assert(!line@.contains('\n')) by {
            if line@.contains('\n') {
                let k = choose|k: int| 0 <= k < line@.len() && line@[k] == '\n';
                assert(s@[line_start + k] == '\n');
            }
        }
        assert(s@.skip(line_start as int) =~= line@);
        lemma_split_lines_single(line@);
        assert(out.deep_view() =~= split_lines_of(s@));
    }
    out
}

/// Joining parts with a separator between each adjacent pair.
pub open spec fn join_chars(parts: Seq<Seq<char>>, sep: Seq<char>) -> Seq<char>
    decreases parts.len(),
{
    if parts.len() == 0 {
        Seq::<char>::empty()
    } else if parts.len() == 1 {
        parts[0]
    } else {
        parts[0] + sep + join_chars(parts.skip(1), sep)
    }
}

/// Joining one more part appends a separator and the part.
pub proof fn lemma_join_push(parts: Seq<Seq<char>>, sep: Seq<char>, x: Seq<char>)
    requires
        parts.len() >= 1,
    ensures
        join_chars(parts.push(x), sep) =~= join_chars(parts, sep) + sep + x,
    decreases parts.len(),
{
    if parts.len() == 1 {
        assert(parts.push(x).skip(1) =~= seq![x]);
        assert(join_chars(seq![x], sep) == x);
    } else {
        assert(parts.push(x).skip(1) =~= parts.skip(1).push(x));
        lemma_join_push(parts.skip(1), sep, x);
    }
}

/// Joins the parts with the separator.
pub fn join_strs(parts: &Vec<String>, sep: &str) -> (r: String)
    ensures
        r@ == join_chars(parts.deep_view(), sep@),
{
    let mut out = String::new();
    let n = parts.len();
    let mut i: usize = 0;
    while i < n
        invariant
            i <= n,
            n == parts.len(),
            out@ == join_chars(parts.deep_view().take(i as int), sep@),
        decreases n - i,
    {
        if i > 0 {
            out.append(sep);
        }
        out.append(parts[i].as_str());
        proof {
            let pv = parts.deep_view();
            if i == 0 {
                assert(pv.take(1) =~= seq![pv[0]]);
            } else {
                assert(pv.take(i + 1) =~= pv.take(i as int).push(pv[i as int]));
                lemma_join_push(pv.take(i as int), sep@, pv[i as int]);
            }
        }
        i = i + 1;
    }
    proof {
        assert(parts.deep_view().take(n as int) =~= parts.deep_view());
    }
    out
}

/// Appends a string to a vector, tracked on the character level.
pub fn push_owned(v: &mut Vec<String>, s: String)
    ensures
        final(v).deep_view() == old(v).deep_view().push(s@),
        final(v).len() == old(v).len() + 1,
{
    let ghost d0 = v.deep_view();
    let ghost sv = s@;
    v.push(s);
    proof {
        assert(v@.len() == d0.len() + 1);
        assert forall|j: int| 0 <= j < v@.len() implies v.deep_view()[j] == d0.push(sv)[j] by {
            if j < d0.len() {
                assert(v@[j] == old(v)@[j]);
                assert(d0[j] == old(v)@[j]@);
            } else {
                assert(v@[j]@ == sv);
            }
        }
        assert(v.deep_view() =~= d0.push(sv));
    }
}

/// Appends a string slice to a vector, tracked on the character
/// level.
pub fn push_ref<'a>(v: &mut Vec<&'a str>, s: &'a str)
    ensures
        final(v).deep_view() == old(v).deep_view().push(s@),
        final(v).len() == old(v).len() + 1,
{
    let ghost d0 = v.deep_view();
    let ghost sv = s@;
    v.push(s);
    proof {
        assert(v@.len() == d0.len() + 1);
        assert forall|j: int| 0 <= j < v@.len() implies v.deep_view()[j] == d0.push(sv)[j] by {
            if j < d0.len() {
                assert(v@[j] == old(v)@[j]);
                assert(d0[j] == old(v)@[j]@);
            } else {
                assert(v@[j]@ == sv);
            }
        }
        assert(v.deep_view() =~= d0.push(sv));
    }
}

/// Copies a vector of strings, character for character.
pub fn clone_string_vec(v: &Vec<String>) -> (r: Vec<String>)
    ensures
        r.deep_view() == v.deep_view(),
        r.len() == v.len(),
{
    let n = v.len();
    let mut r: Vec<String> = Vec::new();
    let mut i: usize = 0;
    while i < n
        invariant
            i <= n,
            n == v.len(),
            r.deep_view() == v.deep_view().take(i as int),
        decreases n - i,
    {
        push_owned(&mut r, v[i].as_str().to_owned());
        proof {
            assert(r.deep_view() =~= v.deep_view().take(i + 1));
        }
        i = i + 1;
    }
    proof {
        assert(v.deep_view().take(n as int) =~= v.deep_view());
    }
    r
}

/// Whether a character counts as blank when trimming text.
pub open spec fn is_space(c: char) -> bool {
    c == ' ' || c == '\t' || c == '\n' || c == '\r'
}

/// A sequence without its leading blanks.
pub open spec fn trim_start_of(s: Seq<char>) -> Seq<char>
    decreases s.len(),
{
    if s.len() > 0 && is_space(s[0]) {
        trim_start_of(s.skip(1))
    } else {
        s
    }
}

/// A sequence without its trailing blanks.
pub open spec fn trim_end_of(s: Seq<char>) -> Seq<char>
    decreases s.len(),
{
    if s.len() > 0 && is_space(s.last()) {
        trim_end_of(s.drop_last())
    } else {
        s
    }
}

/// A sequence without its leading and trailing blanks.
pub open spec fn trimmed(s: Seq<char>) -> Seq<char> {
    trim_end_of(trim_start_of(s))
}

proof fn lemma_trim_start_skip(s: Seq<char>, i: int)
    requires
        0 <= i <= s.len(),
        forall|j: int| 0 <= j < i ==> is_space(#[trigger] s[j]),
    ensures
        trim_start_of(s) == trim_start_of(s.skip(i)),
    decreases i,
{
    if i > 0 {
        assert(is_space(s[0]));
        assert(s.skip(1).skip(i - 1) =~= s.skip(i));
        lemma_trim_start_skip(s.skip(1), i - 1);
    } else {
        assert(s.skip(0) =~= s);
    }
}

proof fn lemma_trim_start_clean(s: Seq<char>)
    requires
        s.len() == 0 || !is_space(s[0]),
    ensures
        trim_start_of(s) == s,
{
}

proof fn lemma_trim_end_take(s: Seq<char>, i: int)
    requires
        0 <= i <= s.len(),
        forall|j: int| i <= j < s.len() ==> is_space(#[trigger] s[j]),
    ensures
        trim_end_of(s) == trim_end_of(s.take(i)),
    decreases s.len() - i,
{
    if i < s.len() {
        assert(is_space(s.last()));
        assert(s.drop_last().take(i) =~= s.take(i));
        lemma_trim_end_take(s.drop_last(), i);
    } else {
        assert(s.take(i) =~= s);
    }
}

proof fn lemma_trim_end_clean(s: Seq<char>)
    requires
        s.len() == 0 || !is_space(s.last()),
    ensures
        trim_end_of(s) == s,
{
}

fn blank_at(s: &str, i: usize) -> (r: bool)
    requires
        i < s@.len(),
    ensures
        r == is_space(s@[i as int]),
{
    let c = s.get_char(i);
    c == ' ' || c == '\t' || c == '\n' || c == '\r'
}

/// Removes leading and trailing blanks.
pub fn trim(s: &str) -> (r: String)
    ensures
        r@ == trimmed(s@),
{
    let n = s.unicode_len();
    let mut start: usize = 0;
    while start < n && blank_at(s, start)
        invariant
            start <= n,
            n == s@.len(),
            forall|j: int| 0 <= j < start ==> is_space(#[trigger] s@[j]),
        decreases n - start,
    {
        start = start + 1;
    }
    let mut end: usize = n;
    while end > start && blank_at(s, end - 1)
        invariant
            start <= end <= n,
            n == s@.len(),
            start == n || !is_space(s@[start as int]),
            forall|j: int| 0 <= j < start ==> is_space(#[trigger] s@[j]),
            forall|j: int| end <= j < n ==> is_space(#[trigger] s@[j]),
        decreases end,
    {
        end = end - 1;
    }
    let r = substr(s, start, end);
    proof {
        lemma_trim_start_skip(s@, start as int);
        let t = s@.skip(start as int);
        if start < end {
            assert(t[0] == s@[start as int]);
            assert(!is_space(t[0]));
            lemma_trim_start_clean(t);
            assert(forall|j: int| end - start <= j < t.len() ==> is_space(#[trigger] t[j]));
            lemma_trim_end_take(t, end - start);
            let u = t.take(end - start);
            assert(u.last() == s@[end - 1]);
            assert(!is_space(u.last()));
            lemma_trim_end_clean(u);
            assert(r@ =~= u);
        } else {
            if start < n {
                assert(is_space(s@[start as int]));
                assert(false);
            }
            assert(t.len() == 0);
            lemma_trim_start_clean(t);
            lemma_trim_end_clean(t);
            assert(r@ =~= t);
        }
    }
    r
}

/// Whether the pattern occurs in `s` starting at position `i`.
pub open spec fn match_at(s: Seq<char>, pat: Seq<char>, i: int) -> bool {
    0 <= i && i + pat.len() <= s.len() && s.subrange(i, i + pat.len()) == pat
}

/// The first position at or after `from` where the pattern occurs.
pub open spec fn first_match(s: Seq<char>, pat: Seq<char>, from: int) -> Option<int>
    decreases s.len() - from,
{
    if from < 0 || from + pat.len() > s.len() {
        None
    } else if pat.len() == 0 {
        Some(from)
    } else if match_at(s, pat, from) {
        Some(from)
    } else {
        first_match(s, pat, from + 1)
    }
}

/// Finds the first occurrence of a pattern at or after a position.
pub fn find_sub(s: &str, pat: &str, from: usize) -> (r: Option<usize>)
    ensures
        match r {
            Some(i) => first_match(s@, pat@, from as int) == Some(i as int),
            None => first_match(s@, pat@, from as int) is None,
        },
{
    let n = s.unicode_len();
    let m = pat.unicode_len();
    let mut i: usize = from;
    if m > n || from > n - m {
        proof {
            lemma_first_match_out(s@, pat@, from as int);
        }
        return None;
    }
    if m == 0 {
        return Some(from);
    }
    while i <= n - m
        invariant
            from <= i <= n - m + 1,
            n == s@.len(),
            m == pat@.len(),
            0 < m <= n,
            first_match(s@, pat@, from as int) == first_match(s@, pat@, i as int),
        decreases n - i,
    {
        let piece = s.substring_char(i, i + m);
        if str_eq(piece, pat) {
            proof {
                assert(match_at(s@, pat@, i as int));
            }
            return Some(i);
        }
        proof {
            assert(!match_at(s@, pat@, i as int));
        }
        i = i + 1;
    }
    proof {
        assert(first_match(s@, pat@, i as int) is None);
    }
    None
}

proof fn lemma_first_match_out(s: Seq<char>, pat: Seq<char>, from: int)
    requires
        from + pat.len() > s.len() || from < 0,
    ensures
        from >= 0 ==> first_match(s, pat, from) is None,
{
}

/// A found first match lies at a real occurrence, at or after the
/// start.
pub proof fn lemma_first_match_is_match(s: Seq<char>, pat: Seq<char>, from: int)
    requires
        first_match(s, pat, from) is Some,
    ensures
        from <= first_match(s, pat, from)->0,
        first_match(s, pat, from)->0 + pat.len() <= s.len(),
        0 <= first_match(s, pat, from)->0,
        match_at(s, pat, first_match(s, pat, from)->0),
    decreases s.len() - from,
{
    let i = first_match(s, pat, from)->0;
    if from < 0 || from + pat.len() > s.len() {
    } else if pat.len() == 0 {
        assert(s.subrange(from, from) =~= pat);
    } else if match_at(s, pat, from) {
    } else {
        lemma_first_match_is_match(s, pat, from + 1);
    }
}

/// Any occurrence at or after the start means the search succeeds.
pub proof fn lemma_first_match_exists(s: Seq<char>, pat: Seq<char>, from: int, p: int)
    requires
        0 <= from <= p,
        match_at(s, pat, p),
    ensures
        first_match(s, pat, from) is Some,
        first_match(s, pat, from)->0 <= p,
    decreases p - from,
{
    if from < p && !match_at(s, pat, from) {
        lemma_first_match_exists(s, pat, from + 1, p);
    }
}

/// The position after the last occurrence of the character, if any.
pub open spec fn last_index_of(s: Seq<char>, c: char) -> Option<int>
    decreases s.len(),
{
    if s.len() == 0 {
        None
    } else if s.last() == c {
        Some(s.len() - 1)
    } else {
        last_index_of(s.drop_last(), c)
    }
}

/// Finds the last occurrence of a character.
pub fn find_last_char(s: &str, c: char) -> (r: Option<usize>)
    ensures
        match r {
            Some(i) => last_index_of(s@, c) == Some(i as int),
            None => last_index_of(s@, c) is None,
        },
{
    let n = s.unicode_len();
    let mut i: usize = n;
    proof {
        assert(s@.take(n as int) =~= s@);
    }
    while i > 0
        invariant
            i <= n,
            n == s@.len(),
            last_index_of(s@, c) == last_index_of(s@.take(i as int), c),
        decreases i,
    {
        proof {
            assert(s@.take(i as int).last() == s@[i - 1]);
            assert(s@.take(i as int).drop_last() =~= s@.take(i - 1));
        }
        if s.get_char(i - 1) == c {
            return Some(i - 1);
        }
        i = i - 1;
    }
    proof {
        assert(s@.take(0).len() == 0);
    }
    None
}

/// A found first match is the earliest occurrence.
pub proof fn lemma_first_match_min(s: Seq<char>, pat: Seq<char>, from: int, j: int)
    requires
        first_match(s, pat, from) is Some,
        pat.len() > 0,
        from <= j < first_match(s, pat, from)->0,
    ensures
        !match_at(s, pat, j),
    decreases j - from,
{
    if from < j {
        lemma_first_match_min(s, pat, from + 1, j);
    }
}

/// A found last occurrence is a real occurrence, with none after it.
pub proof fn lemma_last_index_props(s: Seq<char>, c: char)
    requires
        last_index_of(s, c) is Some,
    ensures
        0 <= last_index_of(s, c)->0 < s.len(),
        s[last_index_of(s, c)->0] == c,
    decreases s.len(),
{
    if s.len() > 0 && s.last() != c {
        lemma_last_index_props(s.drop_last(), c);
    }
}

/// Splitting a text at every occurrence of a separator character.
pub open spec fn split_char_of(s: Seq<char>, sep: char) -> Seq<Seq<char>>
    decreases s.len(),
{
    if s.len() == 0 {
        seq![Seq::<char>::empty()]
    } else if s[0] == sep {
        seq![Seq::<char>::empty()] + split_char_of(s.skip(1), sep)
    } else {
        let rest = split_char_of(s.skip(1), sep);
        seq![seq![s[0]] + rest[0]] + rest.skip(1)
    }
}

proof fn lemma_split_char_step(line: Seq<char>, rest: Seq<char>, sep: char)
    requires
        !line.contains(sep),
    ensures
        split_char_of(line + seq![sep] + rest, sep) =~= seq![line] + split_char_of(rest, sep),
    decreases line.len(),
{
    let s = line + seq![sep] + rest;
    if line.len() == 0 {
        assert(line =~= Seq::<char>::empty());
        assert(s[0] == sep);
        assert(s.skip(1) =~= rest);
    } else {
        assert(s[0] == line[0]);
        assert(s[0] != sep) by {
            if line[0] == sep {
                assert(line.contains(sep));
            }
        }
        assert(s.skip(1) =~= line.skip(1) + seq![sep] + rest);
        assert(!line.skip(1).contains(sep)) by {
            if line.skip(1).contains(sep) {
                let k = choose|k: int| 0 <= k < line.skip(1).len() && line.skip(1)[k] == sep;
                assert(line[k + 1] == sep);
                assert(line.contains(sep));
            }
        }
        lemma_split_char_step(line.skip(1), rest, sep);
        let inner = split_char_of(s.skip(1), sep);
        assert(inner =~= seq![line.skip(1)] + split_char_of(rest, sep));
        assert(inner[0] == line.skip(1));
        assert(inner.skip(1) =~= split_char_of(rest, sep));
        assert(split_char_of(s, sep) == seq![seq![s[0]] + inner[0]] + inner.skip(1));
        assert(seq![s[0]] + line.skip(1) =~= line);
    }
}

proof fn lemma_split_char_single(line: Seq<char>, sep: char)
    requires
        !line.contains(sep),
    ensures
        split_char_of(line, sep) =~= seq![line],
    decreases line.len(),
{
    if line.len() == 0 {
        assert(line =~= Seq::<char>::empty());
    } else {
        assert(line[0] != sep) by {
            if line[0] == sep {
                assert(line.contains(sep));
            }
        }
        assert(!line.skip(1).contains(sep)) by {
            if line.skip(1).contains(sep) {
                let k = choose|k: int| 0 <= k < line.skip(1).len() && line.skip(1)[k] == sep;
                assert(line[k + 1] == sep);
                assert(line.contains(sep));
            }
        }
        lemma_split_char_single(line.skip(1), sep);
        let inner = split_char_of(line.skip(1), sep);
        assert(inner =~= seq![line.skip(1)]);
        assert(inner[0] == line.skip(1));
        assert(inner.skip(1) =~= Seq::<Seq<char>>::empty());
        assert(split_char_of(line, sep) == seq![seq![line[0]] + inner[0]] + inner.skip(1));
        assert(seq![line[0]] + line.skip(1) =~= line);
    }
}

/// Splits a text at a separator character.
pub fn split_at_char(s: &str, sep: char) -> (r: Vec<String>)
    ensures
        r.deep_view() == split_char_of(s@, sep),
        r.len() >= 1,
{
    let n = s.unicode_len();
    let mut out: Vec<String> = Vec::new();
    let mut piece_start: usize = 0;
    let mut i: usize = 0;
    proof {
        assert(s@.skip(0) =~= s@);
        assert(out.deep_view() + split_char_of(s@, sep) =~= split_char_of(s@, sep));
    }
    while i < n
        invariant
            piece_start <= i <= n,
            n == s@.len(),
            forall|j: int| piece_start <= j < i ==> s@[j] != sep,
            split_char_of(s@, sep) =~= out.deep_view() + split_char_of(
                s@.skip(piece_start as int),
                sep,
            ),
        decreases n - i,
    {
        if s.get_char(i) == sep {
            let piece = substr(s, piece_start, i);
            push_owned(&mut out, piece);
            proof {
                let pv = s@.subrange(piece_start as int, i as int);
                assert(!pv.contains(sep)) by {
                    if pv.contains(sep) {
                        let k = choose|k: int| 0 <= k < pv.len() && pv[k] == sep;
                        assert(s@[piece_start + k] == sep);
                    }
                }
                assert(s@.skip(piece_start as int) =~= pv + seq![sep] + s@.skip(i + 1));
                lemma_split_char_step(pv, s@.skip(i + 1), sep);
            }
            piece_start = i + 1;
        }
        i = i + 1;
    }
    let piece = substr(s, piece_start, n);
    push_owned(&mut out, piece);
    proof {
        let pv = s@.subrange(piece_start as int, n as int);
        assert(!pv.contains(sep)) by {
            if pv.contains(sep) {
                let k = choose|k: int| 0 <= k < pv.len() && pv[k] == sep;
                assert(s@[piece_start + k] == sep);
            }
        }
        assert(s@.skip(piece_start as int) =~= pv);
        lemma_split_char_single(pv, sep);
        assert(out.deep_view() =~= split_char_of(s@, sep));
    }
    out
}

/// The Unicode lowercase form of a character sequence, as
/// `str::to_lowercase` computes it.
pub uninterp spec fn lower_of(s: Seq<char>) -> Seq<char>;

/// Relies on `str::to_lowercase` from std: the lowercase form depends
/// on the characters of the input alone.
#[verifier::external_body]
pub fn lowercase(s: &str) -> (r: String)
    ensures
        r@ == lower_of(s@),
{
    s.to_lowercase()
}

/// Text wrapped at a given width, as `textwrap::fill` computes it.
pub uninterp spec fn filled(s: Seq<char>, width: int) -> Seq<char>;

/// Relies on `textwrap::fill`: it wraps the text at the given width,
/// a function of the text and the width alone.
#[verifier::external_body]
pub fn fill_text(s: &str, width: usize) -> (r: String)
    ensures
        r@ == filled(s@, width as int),
{
    textwrap::fill(s, width)
}

} // verus!
