//! Characters, words and numbers: the text primitives that the rest of the
//! library is stated over.
use vstd::prelude::*;

verus! {

/// `String::push` of std appends the given character to the end of the string.
pub assume_specification[ String::push ](s: &mut String, c: char)
    ensures
        final(s)@ == old(s)@.push(c),
;

/// The characters with Unicode's `White_Space` property.
pub open spec fn is_white(c: char) -> bool {
    ||| '\u{9}' <= c <= '\u{d}'
    ||| c == ' '
    ||| c == '\u{85}'
    ||| c == '\u{a0}'
    ||| c == '\u{1680}'
    ||| '\u{2000}' <= c <= '\u{200a}'
    ||| c == '\u{2028}'
    ||| c == '\u{2029}'
    ||| c == '\u{202f}'
    ||| c == '\u{205f}'
    ||| c == '\u{3000}'
}

/// The characters of Unicode's general category `Cc`.
pub open spec fn is_control_char(c: char) -> bool {
    c <= '\u{1f}' || '\u{7f}' <= c <= '\u{9f}'
}

/// Whether `c` is white space.
pub fn is_whitespace(c: char) -> (r: bool)
    ensures
        r == is_white(c),
{
    ('\u{9}' <= c && c <= '\u{d}') || c == ' ' || c == '\u{85}' || c == '\u{a0}' || c == '\u{1680}'
        || ('\u{2000}' <= c && c <= '\u{200a}') || c == '\u{2028}' || c == '\u{2029}' || c
        == '\u{202f}' || c == '\u{205f}' || c == '\u{3000}'
}

/// Whether `c` is a control character.
pub fn is_control(c: char) -> (r: bool)
    ensures
        r == is_control_char(c),
{
    c <= '\u{1f}' || ('\u{7f}' <= c && c <= '\u{9f}')
}

/// The characters of `s`, in order.
pub fn chars_of(s: &str) -> (r: Vec<char>)
    ensures
        r@ == s@,
{
    let mut r: Vec<char> = Vec::new();
    for c in it: s.chars()
        invariant
            it.seq() == s@,
            r@ == s@.take(it.index() as int),
    {
        r.push(c);
    }
    r
}

/// The string made of the characters `chars[from..to]`.
pub fn string_of(chars: &Vec<char>, from: usize, to: usize) -> (r: String)
    requires
        from <= to <= chars@.len(),
    ensures
        r@ == chars@.subrange(from as int, to as int),
{
    let mut r = String::new();
    for i in from..to
        invariant
            from <= i <= to <= chars@.len(),
            r@ == chars@.subrange(from as int, i as int),
    {
        r.push(chars[i]);
        assert(chars@.subrange(from as int, i + 1) =~= chars@.subrange(from as int, i as int).push(
            chars@[i as int],
        ));
    }
    r
}

/// The digit `d`, for `d < 10`.
pub open spec fn digit(d: nat) -> char {
    ('0' as u32 + d) as char
}

/// `n` in decimal, without leading zeros.
pub open spec fn decimal(n: nat) -> Seq<char>
    decreases n,
{
    if n < 10 {
        seq![digit(n)]
    } else {
        decimal(n / 10).push(digit(n % 10))
    }
}

/// `n` in decimal.
pub fn decimal_string(n: u64) -> (r: String)
    ensures
        r@ == decimal(n as nat),
    decreases n,
{
    let c: char = match n % 10 {
        0 => '0',
        1 => '1',
        2 => '2',
        3 => '3',
        4 => '4',
        5 => '5',
        6 => '6',
        7 => '7',
        8 => '8',
        _ => '9',
    };
    if n < 10 {
        let mut r = String::new();
        r.push(c);
        r
    } else {
        let mut r = decimal_string(n / 10);
        r.push(c);
        r
    }
}

/// Numbers are told apart by how they are written.
pub proof fn law_decimal_is_injective(a: nat, b: nat)
    requires
        decimal(a) == decimal(b),
    ensures
        a == b,
    decreases a,
{
    let s = decimal(a);
    let t = decimal(b);
    lemma_decimal_digits(a);
    lemma_decimal_digits(b);
    assert(s.last() == t.last());
    assert(s.last() == digit(a % 10) && t.last() == digit(b % 10));
    assert(a % 10 == b % 10);
    if a >= 10 {
        lemma_decimal_digits(a / 10);
        assert(s.len() >= 2);
        assert(b >= 10);
        assert(s.drop_last() =~= decimal(a / 10));
        assert(t.drop_last() =~= decimal(b / 10));
        law_decimal_is_injective(a / 10, b / 10);
    } else if b >= 10 {
        lemma_decimal_digits(b / 10);
        assert(t.len() >= 2);
    }
}

/// A number is written with at least one digit, and with digits only.
pub proof fn lemma_decimal_digits(n: nat)
    ensures
        decimal(n).len() > 0,
        forall|i: int| 0 <= i < decimal(n).len() ==> '0' <= #[trigger] decimal(n)[i] <= '9',
    decreases n,
{
    if n >= 10 {
        lemma_decimal_digits(n / 10);
    }
}

/// `s` without the white space it begins with.
pub open spec fn trim_start(s: Seq<char>) -> Seq<char>
    decreases s.len(),
{
    if s.len() > 0 && is_white(s.first()) {
        trim_start(s.drop_first())
    } else {
        s
    }
}

/// `s` without the white space it ends with.
pub open spec fn trim_end(s: Seq<char>) -> Seq<char>
    decreases s.len(),
{
    if s.len() > 0 && is_white(s.last()) {
        trim_end(s.drop_last())
    } else {
        s
    }
}

/// `s` without the white space at either end.
pub open spec fn trimmed(s: Seq<char>) -> Seq<char> {
    trim_end(trim_start(s))
}

/// How many characters stand before the first white space of `s`.
pub open spec fn word_len(s: Seq<char>) -> nat
    decreases s.len(),
{
    if s.len() == 0 || is_white(s.first()) {
        0
    } else {
        1 + word_len(s.drop_first())
    }
}

/// The first of the words that white space separates, if there is a word.
pub open spec fn first_word(s: Seq<char>) -> Option<Seq<char>> {
    let t = trim_start(s);
    if t.len() == 0 {
        None
    } else {
        Some(t.take(word_len(t) as int))
    }
}

/// Whether no character of `s` is white space.
pub open spec fn is_unbroken(s: Seq<char>) -> bool {
    forall|i: int| 0 <= i < s.len() ==> !is_white(#[trigger] s[i])
}

/// Whether every character of `s` is white space.
pub open spec fn is_blank(s: Seq<char>) -> bool {
    forall|i: int| 0 <= i < s.len() ==> is_white(#[trigger] s[i])
}

/// The first position at or behind `from` that holds no white space.
fn skip_white(chars: &Vec<char>, from: usize) -> (r: usize)
    requires
        from <= chars@.len(),
    ensures
        from <= r <= chars@.len(),
        chars@.skip(r as int) == trim_start(chars@.skip(from as int)),
{
    let mut i: usize = from;
    while i < chars.len() && is_whitespace(chars[i])
        invariant
            from <= i <= chars@.len(),
            trim_start(chars@.skip(i as int)) == trim_start(chars@.skip(from as int)),
        decreases chars@.len() - i,
    {
        assert(chars@.skip(i as int).drop_first() =~= chars@.skip(i + 1));
        i = i + 1;
    }
    i
}

/// `s` without the white space at either end.
pub fn trim(s: &str) -> (r: String)
    ensures
        r@ == trimmed(s@),
{
    let chars = chars_of(s);
    let from: usize = skip_white(&chars, 0);
    assert(chars@.skip(0) =~= s@);
    let mut to: usize = chars.len();
    assert(chars@.subrange(from as int, to as int) =~= chars@.skip(from as int));
    while from < to && is_whitespace(chars[to - 1])
        invariant
            from <= to <= chars@.len(),
            trim_end(chars@.subrange(from as int, to as int)) == trimmed(s@),
        decreases to,
    {
        assert(chars@.subrange(from as int, to as int).drop_last() =~= chars@.subrange(
            from as int,
            to - 1,
        ));
        to = to - 1;
    }
    string_of(&chars, from, to)
}

/// The first of the words of `s` that white space separates, if there is one.
pub fn first_word_of(s: &str) -> (r: Option<String>)
    ensures
        match r {
            Some(w) => first_word(s@) == Some(w@),
            None => first_word(s@) is None,
        },
{
    let chars = chars_of(s);
    let from: usize = skip_white(&chars, 0);
    assert(chars@.skip(0) =~= s@);
    if from == chars.len() {
        return None;
    }
    let ghost rest = chars@.skip(from as int);
    let mut to: usize = from;
    while to < chars.len() && !is_whitespace(chars[to])
        invariant
            from <= to <= chars@.len(),
            rest == chars@.skip(from as int),
            word_len(rest) == (to - from) + word_len(chars@.skip(to as int)),
        decreases chars@.len() - to,
    {
        assert(chars@.skip(to as int).drop_first() =~= chars@.skip(to + 1));
        to = to + 1;
    }
    assert(chars@.subrange(from as int, to as int) =~= rest.take(to - from));
    Some(string_of(&chars, from, to))
}

/// Whether `s` begins with `prefix`.
pub fn begins_with(s: &str, prefix: &str) -> (r: bool)
    ensures
        r == prefix@.is_prefix_of(s@),
{
    let a = chars_of(s);
    let b = chars_of(prefix);
    if b.len() > a.len() {
        return false;
    }
    let mut i: usize = 0;
    while i < b.len()
        invariant
            i <= b@.len() <= a@.len(),
            a@ == s@,
            b@ == prefix@,
            forall|j: int| 0 <= j < i ==> a@[j] == b@[j],
        decreases b@.len() - i,
    {
        if a[i] != b[i] {
            return false;
        }
        i = i + 1;
    }
    true
}

/// What follows `prefix` in `s`, if `s` begins with it.
pub fn after_prefix(s: &str, prefix: &str) -> (r: Option<String>)
    ensures
        match r {
            Some(rest) => s@ == prefix@ + rest@,
            None => !prefix@.is_prefix_of(s@),
        },
{
    if begins_with(s, prefix) {
        let chars = chars_of(s);
        let n: usize = prefix.unicode_len();
        let rest = string_of(&chars, n, chars.len());
        assert(s@ =~= prefix@ + rest@);
        Some(rest)
    } else {
        None
    }
}

/// Trimming leaves text with no white space at either end, and leaves such
/// text as it is.
pub proof fn law_trimmed_has_bare_ends(s: Seq<char>)
    ensures
        trimmed(s).len() > 0 ==> !is_white(trimmed(s).first()) && !is_white(trimmed(s).last()),
        s.len() > 0 && !is_white(s.first()) && !is_white(s.last()) ==> trimmed(s) == s,
        trimmed(trimmed(s)) == trimmed(s),
{
    lemma_trim_start(s);
    lemma_trim_end(trim_start(s));
    lemma_trim_start(trimmed(s));
    lemma_trim_end(trimmed(s));
}

/// What leading white space is cut off, and what is left.
pub proof fn lemma_trim_start(s: Seq<char>)
    ensures
        trim_start(s).len() <= s.len(),
        trim_start(s) == s.skip(s.len() - trim_start(s).len()),
        is_blank(s.take(s.len() - trim_start(s).len())),
        trim_start(s).len() > 0 ==> !is_white(trim_start(s).first()),
    decreases s.len(),
{
    if s.len() > 0 && is_white(s.first()) {
        lemma_trim_start(s.drop_first());
        let k = s.len() - trim_start(s).len();
        assert(s.skip(k) =~= s.drop_first().skip(k - 1));
        assert forall|i: int| 0 <= i < k implies is_white(#[trigger] s.take(k)[i]) by {
            if i > 0 {
                assert(s.drop_first().take(k - 1)[i - 1] == s[i]);
            }
        }
    } else {
        assert(s.skip(0) =~= s);
    }
}

/// What trailing white space is cut off, and what is left.
pub proof fn lemma_trim_end(s: Seq<char>)
    ensures
        trim_end(s).len() <= s.len(),
        trim_end(s) == s.take(trim_end(s).len() as int),
        is_blank(s.skip(trim_end(s).len() as int)),
        trim_end(s).len() > 0 ==> !is_white(trim_end(s).last()),
    decreases s.len(),
{
    if s.len() > 0 && is_white(s.last()) {
        lemma_trim_end(s.drop_last());
        let k = trim_end(s).len() as int;
        assert(s.take(k) =~= s.drop_last().take(k));
        assert forall|i: int| 0 <= i < s.len() - k implies is_white(#[trigger] s.skip(k)[i]) by {
            if i < s.len() - k - 1 {
                assert(s.drop_last().skip(k)[i] == s[k + i]);
            }
        }
    } else {
        assert(s.take(s.len() as int) =~= s);
    }
}

/// A number below ten is written as its digit.
pub proof fn law_small_number_is_a_digit(d: nat)
    requires
        d < 10,
    ensures
        decimal(d) == seq!["0123456789"@[d as int]],
{
    reveal_strlit("0123456789");
    lemma_digit_is_listed(d);
}

/// A digit behind a number makes it ten times as large, and adds the digit.
pub proof fn law_digit_behind_a_number(n: nat, d: nat)
    requires
        n >= 1,
        d < 10,
    ensures
        decimal(10 * n + d) == decimal(n).push("0123456789"@[d as int]),
{
    lemma_digit_is_listed(d);
    let m: nat = 10 * n + d;
    assert(m / 10 == n && m % 10 == d);
}

proof fn lemma_digit_is_listed(d: nat)
    requires
        d < 10,
    ensures
        digit(d) == "0123456789"@[d as int],
{
    reveal_strlit("0123456789");
    if d == 0 {
    } else if d == 1 {
    } else if d == 2 {
    } else if d == 3 {
    } else if d == 4 {
    } else if d == 5 {
    } else if d == 6 {
    } else if d == 7 {
    } else if d == 8 {
    }
}

proof fn lemma_blank_start_is_cut(a: Seq<char>, b: Seq<char>)
    requires
        forall|i: int| 0 <= i < a.len() ==> is_white(#[trigger] a[i]),
    ensures
        trim_start(a + b) == trim_start(b),
    decreases a.len(),
{
    if a.len() == 0 {
        assert(a + b =~= b);
    } else {
        assert((a + b).first() == a[0]);
        assert((a + b).drop_first() =~= a.drop_first() + b);
        lemma_blank_start_is_cut(a.drop_first(), b);
    }
}

proof fn lemma_blank_end_is_cut(a: Seq<char>, b: Seq<char>)
    requires
        forall|i: int| 0 <= i < b.len() ==> is_white(#[trigger] b[i]),
    ensures
        trim_end(a + b) == trim_end(a),
    decreases b.len(),
{
    if b.len() == 0 {
        assert(a + b =~= a);
    } else {
        assert((a + b).last() == b[b.len() - 1]);
        assert((a + b).drop_last() =~= a + b.drop_last());
        lemma_blank_end_is_cut(a, b.drop_last());
    }
}

/// Trimming cuts off exactly the white space around: what begins and ends with
/// something else is left whole.
pub proof fn law_trimmed_is_what_blanks_surround(a: Seq<char>, t: Seq<char>, b: Seq<char>)
    requires
        forall|i: int| 0 <= i < a.len() ==> is_white(#[trigger] a[i]),
        forall|i: int| 0 <= i < b.len() ==> is_white(#[trigger] b[i]),
        t.len() > 0 ==> !is_white(t[0]) && !is_white(t[t.len() - 1]),
    ensures
        trimmed(a + t + b) == t,
{
    assert(a + t + b =~= a + (t + b));
    lemma_blank_start_is_cut(a, t + b);
    if t.len() == 0 {
        assert(t + b =~= b + Seq::<char>::empty());
        lemma_blank_start_is_cut(b, Seq::empty());
        assert(trim_start(Seq::<char>::empty()) =~= t);
    } else {
        assert((t + b).first() == t[0]);
        lemma_blank_end_is_cut(t, b);
    }
}

proof fn lemma_word_len_counts(word: Seq<char>, rest: Seq<char>)
    requires
        forall|i: int| 0 <= i < word.len() ==> !is_white(#[trigger] word[i]),
        rest.len() > 0 ==> is_white(rest[0]),
    ensures
        word_len(word + rest) == word.len(),
    decreases word.len(),
{
    if word.len() == 0 {
        assert(word + rest =~= rest);
    } else {
        assert((word + rest).first() == word[0]);
        assert((word + rest).drop_first() =~= word.drop_first() + rest);
        lemma_word_len_counts(word.drop_first(), rest);
    }
}

/// The first word is what stands between leading white space and the white
/// space behind it.
pub proof fn law_first_word_is_set_off(gap: Seq<char>, word: Seq<char>, rest: Seq<char>)
    requires
        forall|i: int| 0 <= i < gap.len() ==> is_white(#[trigger] gap[i]),
        word.len() > 0,
        forall|i: int| 0 <= i < word.len() ==> !is_white(#[trigger] word[i]),
        rest.len() > 0 ==> is_white(rest[0]),
    ensures
        first_word(gap + word + rest) == Some(word),
{
    assert(gap + word + rest =~= gap + (word + rest));
    lemma_blank_start_is_cut(gap, word + rest);
    assert((word + rest).first() == word[0]);
    lemma_word_len_counts(word, rest);
    assert((word + rest).take(word.len() as int) =~= word);
}

/// White space alone holds no word.
pub proof fn law_blank_holds_no_word(s: Seq<char>)
    requires
        forall|i: int| 0 <= i < s.len() ==> is_white(#[trigger] s[i]),
    ensures
        first_word(s) is None,
{
    assert(s =~= s + Seq::<char>::empty());
    lemma_blank_start_is_cut(s, Seq::empty());
}

/// The white space of Unicode, character by character.
pub proof fn law_white_space_is_listed(c: char)
    ensures
        is_white(c)
            <==> "\u{9}\u{a}\u{b}\u{c}\u{d}\u{20}\u{85}\u{a0}\u{1680}\u{2000}\u{2001}\u{2002}\u{2003}\u{2004}\u{2005}\u{2006}\u{2007}\u{2008}\u{2009}\u{200a}\u{2028}\u{2029}\u{202f}\u{205f}\u{3000}"@.contains(
            c,
        ),
{
    reveal_strlit(
        "\u{9}\u{a}\u{b}\u{c}\u{d}\u{20}\u{85}\u{a0}\u{1680}\u{2000}\u{2001}\u{2002}\u{2003}\u{2004}\u{2005}\u{2006}\u{2007}\u{2008}\u{2009}\u{200a}\u{2028}\u{2029}\u{202f}\u{205f}\u{3000}",
    );
    let all =
        "\u{9}\u{a}\u{b}\u{c}\u{d}\u{20}\u{85}\u{a0}\u{1680}\u{2000}\u{2001}\u{2002}\u{2003}\u{2004}\u{2005}\u{2006}\u{2007}\u{2008}\u{2009}\u{200a}\u{2028}\u{2029}\u{202f}\u{205f}\u{3000}"@;
    assert(all.len() == 25);
    assert(all[0] == '\u{9}' && all[1] == '\u{a}' && all[2] == '\u{b}' && all[3] == '\u{c}');
    assert(all[4] == '\u{d}' && all[5] == ' ' && all[6] == '\u{85}' && all[7] == '\u{a0}');
    assert(all[8] == '\u{1680}' && all[9] == '\u{2000}' && all[10] == '\u{2001}');
    assert(all[11] == '\u{2002}' && all[12] == '\u{2003}' && all[13] == '\u{2004}');
    assert(all[14] == '\u{2005}' && all[15] == '\u{2006}' && all[16] == '\u{2007}');
    assert(all[17] == '\u{2008}' && all[18] == '\u{2009}' && all[19] == '\u{200a}');
    assert(all[20] == '\u{2028}' && all[21] == '\u{2029}' && all[22] == '\u{202f}');
    assert(all[23] == '\u{205f}' && all[24] == '\u{3000}');
}

/// The control characters are the code points below 32 and from 127 to 159.
pub proof fn law_control_characters_are_ranges(c: char)
    ensures
        is_control_char(c) <==> (c as u32) < 32 || 127 <= (c as u32) <= 159,
{
}

} // verus!
