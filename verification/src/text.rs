//! Text helpers over strings viewed as sequences of characters: slicing a
//! source by byte offsets, first lines, trimming and affix stripping.

use vstd::prelude::*;
use vstd::string::StringExecFns;
use vstd::string::StringSliceAdditionalSpecFns;
use vstd::utf8::*;

verus! {

broadcast use {vstd::utf8::group_utf8_lib, vstd::string::group_string_axioms};

/// Whether `c` has the Unicode property White_Space: the controls from tab
/// to carriage return, the blank, next line, the no-break blank, the Ogham
/// space mark, the blanks from en quad to hair space, the line and the
/// paragraph separator, the narrow no-break blank, the medium mathematical
/// blank and the ideographic blank.
pub open spec fn is_whitespace(c: char) -> bool {
    let code = c as u32;
    ||| 0x09 <= code <= 0x0D
    ||| code == 0x20
    ||| code == 0x85
    ||| code == 0xA0
    ||| code == 0x1680
    ||| 0x2000 <= code <= 0x200A
    ||| code == 0x2028
    ||| code == 0x2029
    ||| code == 0x202F
    ||| code == 0x205F
    ||| code == 0x3000
}

/// `char::is_whitespace` decides the Unicode property White_Space.
pub assume_specification[ char::is_whitespace ](c: char) -> (b: bool)
    ensures
        b == is_whitespace(c),
;

/// `String::push` appends one character to the end of the string.
pub assume_specification[ String::push ](s: &mut String, c: char)
    ensures
        final(s)@ == old(s)@.push(c),
;

/// The texts of `items`.
pub open spec fn texts(items: Seq<String>) -> Seq<Seq<char>> {
    Seq::new(items.len(), |k: int| items[k]@)
}

/// `s` begins with `prefix`.
pub open spec fn starts_with(s: Seq<char>, prefix: Seq<char>) -> bool {
    prefix.len() <= s.len() && s.subrange(0, prefix.len() as int) == prefix
}

/// `s` ends with `suffix`.
pub open spec fn ends_with(s: Seq<char>, suffix: Seq<char>) -> bool {
    suffix.len() <= s.len() && s.subrange(s.len() - suffix.len(), s.len() as int) == suffix
}

/// `s` without its leading whitespace.
pub open spec fn trim_start(s: Seq<char>) -> Seq<char>
    decreases s.len(),
{
    if s.len() > 0 && is_whitespace(s[0]) {
        trim_start(s.drop_first())
    } else {
        s
    }
}

/// `s` without its trailing whitespace.
pub open spec fn trim_end(s: Seq<char>) -> Seq<char>
    decreases s.len(),
{
    if s.len() > 0 && is_whitespace(s.last()) {
        trim_end(s.drop_last())
    } else {
        s
    }
}

/// `s` without leading and trailing whitespace.
pub open spec fn trim(s: Seq<char>) -> Seq<char> {
    trim_end(trim_start(s))
}

/// `s` after removing `prefix` from its front as often as it occurs there.
pub open spec fn strip_prefix_all(s: Seq<char>, prefix: Seq<char>) -> Seq<char>
    decreases s.len(),
{
    if prefix.len() > 0 && starts_with(s, prefix) {
        strip_prefix_all(s.skip(prefix.len() as int), prefix)
    } else {
        s
    }
}

/// `s` after removing `suffix` from its end as often as it occurs there.
pub open spec fn strip_suffix_all(s: Seq<char>, suffix: Seq<char>) -> Seq<char>
    decreases s.len(),
{
    if suffix.len() > 0 && ends_with(s, suffix) {
        strip_suffix_all(s.take(s.len() - suffix.len()), suffix)
    } else {
        s
    }
}

/// `s` without one leading and one trailing occurrence of `quote`, where
/// present.
pub open spec fn strip_one_each_end(s: Seq<char>, quote: char) -> Seq<char> {
    let front = if s.len() > 0 && s[0] == quote {
        s.drop_first()
    } else {
        s
    };
    if front.len() > 0 && front.last() == quote {
        front.drop_last()
    } else {
        front
    }
}

/// Position of the first line feed of `s` at or after `from`, or `s.len()`.
pub open spec fn line_end(s: Seq<char>, from: int) -> int
    decreases s.len() - from,
{
    if from < 0 || from >= s.len() {
        s.len() as int
    } else if s[from] == '\n' {
        from
    } else {
        line_end(s, from + 1)
    }
}

/// The first line of `s`: what precedes the first line feed, less a carriage
/// return directly before that line feed. Text without a line feed is its
/// own first line.
pub open spec fn first_line(s: Seq<char>) -> Seq<char> {
    let end = line_end(s, 0);
    if end < s.len() && end > 0 && s[end - 1] == '\r' {
        s.subrange(0, end - 1)
    } else {
        s.subrange(0, end)
    }
}

/// The lines joined by single line feeds.
pub open spec fn join_lines(lines: Seq<Seq<char>>) -> Seq<char>
    decreases lines.len(),
{
    if lines.len() == 0 {
        Seq::empty()
    } else if lines.len() == 1 {
        lines[0]
    } else {
        join_lines(lines.drop_last()) + seq!['\n'] + lines.last()
    }
}

/// The text that the bytes `start..end` of the UTF-8 encoding of `source`
/// spell; empty unless both offsets are in order, inside the source and on
/// character boundaries.
pub open spec fn text_between(source: Seq<char>, start: int, end: int) -> Seq<char> {
    let bytes = encode_utf8(source);
    if 0 <= start <= end <= bytes.len() && is_char_boundary(bytes, start) && is_char_boundary(
        bytes,
        end,
    ) {
        decode_utf8(bytes.subrange(start, end))
    } else {
        Seq::empty()
    }
}

/// A character boundary of a text is one of each prefix that reaches it.
proof fn lemma_boundary_in_prefix(bytes: Seq<u8>, start: int, end: int)
    requires
        valid_utf8(bytes),
        0 <= start <= end <= bytes.len(),
        is_char_boundary(bytes, start),
        is_char_boundary(bytes, end),
    ensures
        valid_utf8(bytes.subrange(0, end)),
        is_char_boundary(bytes.subrange(0, end), start),
{
    valid_utf8_split(bytes, end);
    let head = bytes.subrange(0, end);
    if start < end {
        is_char_boundary_iff_not_is_continuation_byte(bytes, start);
        is_char_boundary_iff_not_is_continuation_byte(head, start);
    } else {
        is_char_boundary_start_end_of_seq(head);
    }
}

/// The part of `source` between two byte offsets.
pub fn slice_text<'a>(source: &'a str, start: usize, end: usize) -> (text: &'a str)
    ensures
        text@ == text_between(source@, start as int, end as int),
{
    let len = source.as_bytes().len();
    if start <= end && end <= len && source.is_char_boundary(start) && source.is_char_boundary(
        end,
    ) {
        proof {
            lemma_boundary_in_prefix(source.spec_bytes(), start as int, end as int);
        }
        let head = source.split_at(end).0;
        let text = head.split_at(start).1;
        proof {
            let bytes = source.spec_bytes();
            assert(head.spec_bytes().subrange(start as int, head.spec_bytes().len() as int)
                =~= bytes.subrange(start as int, end as int));
        }
        text
    } else {
        proof {
            reveal_strlit("");
        }
        ""
    }
}

/// Whether two strings hold the same characters.
pub fn str_eq(a: &str, b: &str) -> (same: bool)
    ensures
        same == (a@ == b@),
{
    let x = a.as_bytes();
    let y = b.as_bytes();
    proof {
        assert(decode_utf8(a.spec_bytes()) == a@);
        assert(decode_utf8(b.spec_bytes()) == b@);
    }
    if x.len() != y.len() {
        return false;
    }
    let mut i: usize = 0;
    while i < x.len()
        invariant
            i <= x.len(),
            x.len() == y.len(),
            x@ == a.spec_bytes(),
            y@ == b.spec_bytes(),
            forall|k: int| 0 <= k < i ==> x@[k] == y@[k],
        decreases x.len() - i,
    {
        if x[i] != y[i] {
            return false;
        }
        i = i + 1;
    }
    assert(x@ =~= y@);
    true
}

/// The characters of `s`.
pub fn to_chars(s: &str) -> (chars: Vec<char>)
    ensures
        chars@ == s@,
{
    let mut chars: Vec<char> = Vec::new();
    for c in it: s.chars()
        invariant
            chars@ == it.seq().take(it.index() as int),
            it.seq() == s@,
    {
        chars.push(c);
    }
    chars
}

/// The string made of `chars[lo..hi]`.
pub fn string_of(chars: &Vec<char>, lo: usize, hi: usize) -> (s: String)
    requires
        lo <= hi <= chars.len(),
    ensures
        s@ == chars@.subrange(lo as int, hi as int),
{
    let mut s = String::new();
    let mut i: usize = lo;
    while i < hi
        invariant
            lo <= i <= hi <= chars.len(),
            s@ == chars@.subrange(lo as int, i as int),
        decreases hi - i,
    {
        s.push(chars[i]);
        i = i + 1;
    }
    s
}

/// Start of what is left of `chars[lo..hi]` once leading whitespace is gone.
pub fn skip_whitespace(chars: &Vec<char>, lo: usize, hi: usize) -> (at: usize)
    requires
        lo <= hi <= chars.len(),
    ensures
        lo <= at <= hi,
        chars@.subrange(at as int, hi as int) == trim_start(chars@.subrange(lo as int, hi as int)),
{
    let mut at: usize = lo;
    while at < hi && chars[at].is_whitespace()
        invariant
            lo <= at <= hi <= chars.len(),
            trim_start(chars@.subrange(at as int, hi as int)) == trim_start(
                chars@.subrange(lo as int, hi as int),
            ),
        decreases hi - at,
    {
        assert(chars@.subrange(at as int, hi as int).drop_first() =~= chars@.subrange(
            at + 1,
            hi as int,
        ));
        at = at + 1;
    }
    at
}

/// End of what is left of `chars[lo..hi]` once trailing whitespace is gone.
pub fn skip_whitespace_back(chars: &Vec<char>, lo: usize, hi: usize) -> (at: usize)
    requires
        lo <= hi <= chars.len(),
    ensures
        lo <= at <= hi,
        chars@.subrange(lo as int, at as int) == trim_end(chars@.subrange(lo as int, hi as int)),
{
    let mut at: usize = hi;
    while lo < at && chars[at - 1].is_whitespace()
        invariant
            lo <= at <= hi <= chars.len(),
            trim_end(chars@.subrange(lo as int, at as int)) == trim_end(
                chars@.subrange(lo as int, hi as int),
            ),
        decreases at - lo,
    {
        assert(chars@.subrange(lo as int, at as int).drop_last() =~= chars@.subrange(
            lo as int,
            at - 1,
        ));
        at = at - 1;
    }
    at
}

/// Whether `chars[lo..hi]` begins with `prefix`.
pub fn window_starts_with(chars: &Vec<char>, lo: usize, hi: usize, prefix: &Vec<char>) -> (yes:
    bool)
    requires
        lo <= hi <= chars.len(),
    ensures
        yes == starts_with(chars@.subrange(lo as int, hi as int), prefix@),
{
    if prefix.len() > hi - lo {
        return false;
    }
    let ghost window = chars@.subrange(lo as int, hi as int);
    let mut k: usize = 0;
    while k < prefix.len()
        invariant
            lo <= hi <= chars.len(),
            prefix.len() <= hi - lo,
            k <= prefix.len(),
            window == chars@.subrange(lo as int, hi as int),
            forall|j: int| 0 <= j < k ==> window[j] == prefix@[j],
        decreases prefix.len() - k,
    {
        if chars[lo + k] != prefix[k] {
            return false;
        }
        k = k + 1;
    }
    assert(window.subrange(0, prefix.len() as int) =~= prefix@);
    true
}

/// Whether `chars[lo..hi]` ends with `suffix`.
pub fn window_ends_with(chars: &Vec<char>, lo: usize, hi: usize, suffix: &Vec<char>) -> (yes: bool)
    requires
        lo <= hi <= chars.len(),
    ensures
        yes == ends_with(chars@.subrange(lo as int, hi as int), suffix@),
{
    if suffix.len() > hi - lo {
        return false;
    }
    let ghost window = chars@.subrange(lo as int, hi as int);
    let base: usize = hi - suffix.len();
    let mut k: usize = 0;
    while k < suffix.len()
        invariant
            lo <= hi <= chars.len(),
            suffix.len() <= hi - lo,
            base == hi - suffix.len(),
            k <= suffix.len(),
            window == chars@.subrange(lo as int, hi as int),
            forall|j: int| 0 <= j < k ==> window[window.len() - suffix.len() + j] == suffix@[j],
        decreases suffix.len() - k,
    {
        if chars[base + k] != suffix[k] {
            return false;
        }
        k = k + 1;
    }
    assert(window.subrange(window.len() - suffix.len(), window.len() as int) =~= suffix@);
    true
}

/// Start of what is left of `chars[lo..hi]` once every leading `prefix` is
/// gone.
pub fn skip_prefix_all(chars: &Vec<char>, lo: usize, hi: usize, prefix: &Vec<char>) -> (at: usize)
    requires
        lo <= hi <= chars.len(),
    ensures
        lo <= at <= hi,
        chars@.subrange(at as int, hi as int) == strip_prefix_all(
            chars@.subrange(lo as int, hi as int),
            prefix@,
        ),
{
    let mut at: usize = lo;
    if prefix.len() == 0 {
        return at;
    }
    while window_starts_with(chars, at, hi, prefix)
        invariant
            lo <= at <= hi <= chars.len(),
            prefix.len() > 0,
            strip_prefix_all(chars@.subrange(at as int, hi as int), prefix@) == strip_prefix_all(
                chars@.subrange(lo as int, hi as int),
                prefix@,
            ),
        decreases hi - at,
    {
        assert(chars@.subrange(at as int, hi as int).skip(prefix.len() as int) =~= chars@.subrange(
            at + prefix.len(),
            hi as int,
        ));
        at = at + prefix.len();
    }
    at
}

/// End of what is left of `chars[lo..hi]` once every trailing `suffix` is
/// gone.
pub fn skip_suffix_all(chars: &Vec<char>, lo: usize, hi: usize, suffix: &Vec<char>) -> (at: usize)
    requires
        lo <= hi <= chars.len(),
    ensures
        lo <= at <= hi,
        chars@.subrange(lo as int, at as int) == strip_suffix_all(
            chars@.subrange(lo as int, hi as int),
            suffix@,
        ),
{
    let mut at: usize = hi;
    if suffix.len() == 0 {
        return at;
    }
    while window_ends_with(chars, lo, at, suffix)
        invariant
            lo <= at <= hi <= chars.len(),
            suffix.len() > 0,
            strip_suffix_all(chars@.subrange(lo as int, at as int), suffix@) == strip_suffix_all(
                chars@.subrange(lo as int, hi as int),
                suffix@,
            ),
        decreases at - lo,
    {
        assert(chars@.subrange(lo as int, at as int).take(at - lo - suffix.len())
            =~= chars@.subrange(lo as int, at - suffix.len()));
        at = at - suffix.len();
    }
    at
}

/// Whether `s` begins with `prefix`.
pub fn str_starts_with(s: &str, prefix: &str) -> (yes: bool)
    ensures
        yes == starts_with(s@, prefix@),
{
    let chars = to_chars(s);
    let wanted = to_chars(prefix);
    assert(chars@.subrange(0, chars@.len() as int) =~= chars@);
    window_starts_with(&chars, 0, chars.len(), &wanted)
}

/// The first line of `text`.
pub fn first_line_of(text: &str) -> (line: String)
    ensures
        line@ == first_line(text@),
{
    let mut chars: Vec<char> = Vec::new();
    let mut found = false;
    for c in it: text.chars()
        invariant_except_break
            !found,
            chars@ == text@.take(it.index() as int),
            line_end(text@, 0) == line_end(text@, it.index() as int),
        invariant
            it.seq() == text@,
        ensures
            found ==> chars@.len() < text@.len() && text@[chars@.len() as int] == '\n',
            !found ==> chars@.len() == text@.len(),
            chars@ == text@.take(chars@.len() as int),
            line_end(text@, 0) == chars@.len(),
    {
        if c == '\n' {
            found = true;
            break;
        }
        chars.push(c);
    }
    let end = chars.len();
    let stop = if found && end > 0 && chars[end - 1] == '\r' {
        end - 1
    } else {
        end
    };
    string_of(&chars, 0, stop)
}

/// `lines` in reverse order, joined by line feeds.
pub fn join_reversed(lines: &Vec<String>) -> (joined: String)
    ensures
        joined@ == join_lines(texts(lines@).reverse()),
{
    let ghost all = texts(lines@).reverse();
    let mut joined = String::new();
    let n = lines.len();
    let mut k: usize = 0;
    while k < n
        invariant
            n == lines.len(),
            k <= n,
            all == texts(lines@).reverse(),
            joined@ == join_lines(all.take(k as int)),
        decreases n - k,
    {
        if k > 0 {
            joined.push('\n');
        }
        joined.append(lines[n - 1 - k].as_str());
        proof {
            let upto = all.take(k + 1);
            assert(upto.drop_last() =~= all.take(k as int));
        }
        k = k + 1;
    }
    assert(all.take(n as int) =~= all);
    joined
}

/// `text` without one leading and one trailing occurrence of `quote`, where
/// present.
pub fn strip_one_each_end_of(text: &str, quote: char) -> (stripped: String)
    ensures
        stripped@ == strip_one_each_end(text@, quote),
{
    let chars = to_chars(text);
    let n = chars.len();
    let lo: usize = if n > 0 && chars[0] == quote {
        1
    } else {
        0
    };
    let hi: usize = if n > lo && chars[n - 1] == quote {
        n - 1
    } else {
        n
    };
    string_of(&chars, lo, hi)
}

/// The decimal digit for `d`.
pub open spec fn digit(d: nat) -> char {
    (('0' as u8) + d) as char
}

/// The decimal numeral of `n`.
pub open spec fn decimal(n: nat) -> Seq<char>
    decreases n,
{
    if n < 10 {
        seq![digit(n)]
    } else {
        decimal(n / 10).push(digit(n % 10))
    }
}

/// The decimal numeral of `n`.
pub fn decimal_of(n: usize) -> (numeral: String)
    ensures
        numeral@ == decimal(n as nat),
{
    // the digits after the first, last digit first
    let mut digits: Vec<char> = Vec::new();
    let mut rest: usize = n;
    while rest >= 10
        invariant
            decimal(rest as nat) + digits@.reverse() == decimal(n as nat),
        decreases rest,
    {
        let d: u8 = (rest % 10) as u8;
        let ghost before = digits@;
        digits.push((48u8 + d) as char);
        proof {
            assert(digits@.reverse() =~= seq![digit((rest % 10) as nat)] + before.reverse());
            assert(decimal((rest / 10) as nat) + digits@.reverse() =~= decimal(rest as nat)
                + before.reverse());
        }
        rest = rest / 10;
    }
    let mut numeral = String::new();
    numeral.push((48u8 + (rest as u8)) as char);
    let ghost reversed = digits@.reverse();
    let mut k: usize = digits.len();
    assert(numeral@ =~= decimal(rest as nat) + reversed.take(0));
    while k > 0
        invariant
            k <= digits.len(),
            reversed == digits@.reverse(),
            numeral@ == decimal(rest as nat) + reversed.take(digits.len() - k),
        decreases k,
    {
        k = k - 1;
        numeral.push(digits[k]);
        assert(reversed.take(digits.len() - k) =~= reversed.take(digits.len() - k - 1).push(
            digits@[k as int],
        ));
    }
    assert(reversed.take(digits.len() as int) =~= reversed);
    numeral
}

} // verus!
