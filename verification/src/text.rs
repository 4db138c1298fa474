//! Strings as sequences of characters: splitting, searching, trimming, and the
//! decimal and hexadecimal notation of numbers.

use vstd::prelude::*;

verus! {

/// Pushing a character, `String::push` of std, puts it behind the others.
pub assume_specification[ String::push ](s: &mut String, ch: char)
    ensures
        final(s)@ == old(s)@.push(ch),
;

/// The texts that a sequence of strings holds.
pub open spec fn texts(v: Seq<String>) -> Seq<Seq<char>> {
    v.map_values(|s: String| s@)
}

/// A result whose error is taken as text.
pub open spec fn with_text<T>(r: Result<T, String>) -> Result<T, Seq<char>> {
    match r {
        Ok(t) => Ok(t),
        Err(e) => Err(e@),
    }
}

/// A text or an error, both taken as text.
pub open spec fn result_text(r: Result<String, String>) -> Result<Seq<char>, Seq<char>> {
    match r {
        Ok(s) => Ok(s@),
        Err(e) => Err(e@),
    }
}

/// Lines or an error, all taken as text.
pub open spec fn result_lines(r: Result<Vec<String>, String>) -> Result<Seq<Seq<char>>, Seq<char>> {
    match r {
        Ok(v) => Ok(texts(v@)),
        Err(e) => Err(e@),
    }
}

/// `s` begins with `prefix`.
pub open spec fn has_prefix(s: Seq<char>, prefix: Seq<char>) -> bool {
    prefix.len() <= s.len() && s.take(prefix.len() as int) == prefix
}

/// `part` stands somewhere inside `s`, in one piece.
pub open spec fn has_part(s: Seq<char>, part: Seq<char>) -> bool {
    exists|i: int| part_at(s, part, i)
}

/// `part` stands inside `s` at position `i`.
pub open spec fn part_at(s: Seq<char>, part: Seq<char>, i: int) -> bool {
    0 <= i <= s.len() - part.len() && s.subrange(i, i + part.len()) == part
}

/// `part` stands in `s` at position `i`, with white space or an end of `s` on
/// both sides.
pub open spec fn apart_at(s: Seq<char>, part: Seq<char>, i: int) -> bool {
    &&& part_at(s, part, i)
    &&& i == 0 || is_space(s[i - 1])
    &&& i + part.len() == s.len() || is_space(s[i + part.len()])
}

/// `part` stands somewhere in `s` with white space or an end of `s` on both
/// sides.
pub open spec fn stands_apart(s: Seq<char>, part: Seq<char>) -> bool {
    exists|i: int| apart_at(s, part, i)
}

/// The pieces of `s` between the characters that satisfy `sep`. There is always
/// one piece more than there are separators.
pub open spec fn split_where(s: Seq<char>, sep: spec_fn(char) -> bool) -> Seq<Seq<char>>
    decreases s.len(),
{
    if s.len() == 0 {
        seq![Seq::<char>::empty()]
    } else {
        let before = split_where(s.drop_last(), sep);
        if sep(s.last()) {
            before.push(Seq::<char>::empty())
        } else {
            before.drop_last().push(before.last().push(s.last()))
        }
    }
}

/// Being the character `sep`.
pub open spec fn is_char(sep: char) -> spec_fn(char) -> bool {
    |c: char| c == sep
}

/// The pieces of `s` between the occurrences of `sep`.
pub open spec fn split_on(s: Seq<char>, sep: char) -> Seq<Seq<char>> {
    split_where(s, is_char(sep))
}

/// The characters that Unicode calls white space.
pub open spec fn is_space(c: char) -> bool {
    ||| 0x09 <= c as int <= 0x0d
    ||| c as int == 0x20
    ||| c as int == 0x85
    ||| c as int == 0xa0
    ||| c as int == 0x1680
    ||| 0x2000 <= c as int <= 0x200a
    ||| c as int == 0x2028
    ||| c as int == 0x2029
    ||| c as int == 0x202f
    ||| c as int == 0x205f
    ||| c as int == 0x3000
}

/// The runs of characters between white space, empty ones left out.
pub open spec fn words_of(s: Seq<char>) -> Seq<Seq<char>> {
    split_where(s, |c: char| is_space(c)).filter(|w: Seq<char>| w.len() > 0)
}

/// `s` without the white space at its beginning.
pub open spec fn trim_start(s: Seq<char>) -> Seq<char>
    decreases s.len(),
{
    if s.len() > 0 && is_space(s[0]) {
        trim_start(s.drop_first())
    } else {
        s
    }
}

/// `s` without the white space at its end.
pub open spec fn trim_end(s: Seq<char>) -> Seq<char>
    decreases s.len(),
{
    if s.len() > 0 && is_space(s.last()) {
        trim_end(s.drop_last())
    } else {
        s
    }
}

/// `s` without the white space at both ends.
pub open spec fn trimmed(s: Seq<char>) -> Seq<char> {
    trim_end(trim_start(s))
}

/// A line without the carriage return that may stand before its line feed.
pub open spec fn without_return(line: Seq<char>) -> Seq<char> {
    if line.len() > 0 && line.last() == '\r' {
        line.drop_last()
    } else {
        line
    }
}

/// The lines of a text. A line ends in a line feed, or in a carriage return and
/// a line feed; the last one may do without.
pub open spec fn lines_of(s: Seq<char>) -> Seq<Seq<char>> {
    let pieces = split_on(s, '\n');
    let ended = pieces.drop_last().map_values(|l: Seq<char>| without_return(l));
    if pieces.last().len() == 0 {
        ended
    } else {
        ended.push(pieces.last())
    }
}

pub open spec fn is_digit(c: char) -> bool {
    '0' as int <= c as int <= '9' as int
}

/// The number that a sequence of decimal digits denotes.
pub open spec fn digits_value(s: Seq<char>) -> nat
    decreases s.len(),
{
    if s.len() == 0 {
        0
    } else {
        digits_value(s.drop_last()) * 10 + (s.last() as int - '0' as int) as nat
    }
}

/// `s` without one leading plus sign.
pub open spec fn without_plus(s: Seq<char>) -> Seq<char> {
    if s.len() > 0 && s[0] == '+' {
        s.drop_first()
    } else {
        s
    }
}

/// The number below 2^32 that `s` denotes: an optional plus sign, then digits.
pub open spec fn u32_of(s: Seq<char>) -> Option<u32> {
    let digits = without_plus(s);
    if digits.len() > 0 && (forall|i: int| 0 <= i < digits.len() ==> is_digit(digits[i]))
        && digits_value(digits) <= u32::MAX {
        Some(digits_value(digits) as u32)
    } else {
        None
    }
}

/// The digit with value `d`, in bases up to sixteen.
pub open spec fn digit_char(d: nat) -> char {
    if d < 10 {
        ('0' as int + d) as char
    } else {
        ('a' as int + d - 10) as char
    }
}

/// The notation of `n` in base `base`, without leading zeros.
pub open spec fn in_base(n: nat, base: nat) -> Seq<char>
    decreases n,
{
    if base < 2 || n < base {
        seq![digit_char(n)]
    } else {
        proof {
            assert(n / base < n) by (nonlinear_arith)
                requires
                    base >= 2,
                    n >= base,
            ;
        }
        in_base(n / base, base).push(digit_char(n % base))
    }
}

/// The decimal notation of `n`.
pub open spec fn decimal(n: nat) -> Seq<char> {
    in_base(n, 10)
}

/// The hexadecimal notation of `n`, in small letters.
pub open spec fn hexadecimal(n: nat) -> Seq<char> {
    in_base(n, 16)
}

/// The decimal notation of an integer.
pub open spec fn signed_decimal(n: int) -> Seq<char> {
    if n < 0 {
        seq!['-'] + decimal((-n) as nat)
    } else {
        decimal(n as nat)
    }
}

/// `n` times the character `c`.
pub open spec fn repeated(c: char, n: nat) -> Seq<char> {
    Seq::new(n, |i: int| c)
}

/// `s` filled up with blanks to at least `width` characters.
pub open spec fn padded(s: Seq<char>, width: nat) -> Seq<char> {
    if s.len() >= width {
        s
    } else {
        s + repeated(' ', (width - s.len()) as nat)
    }
}

/// The parts in order, with `sep` between neighbours.
pub open spec fn joined(parts: Seq<Seq<char>>, sep: Seq<char>) -> Seq<char>
    decreases parts.len(),
{
    if parts.len() == 0 {
        Seq::<char>::empty()
    } else if parts.len() == 1 {
        parts[0]
    } else {
        joined(parts.drop_last(), sep) + sep + parts.last()
    }
}

/// The characters of `s`.
pub fn chars_of(s: &str) -> (v: Vec<char>)
    ensures
        v@ == s@,
{
    let mut v: Vec<char> = Vec::new();
    for c in it: s.chars()
        invariant
            it.seq() == s@,
            v@ == s@.take(it.index() as int),
    {
        v.push(c);
    }
    v
}

/// The string made of the characters of `v` from `from` up to `to`.
pub fn string_of(v: &Vec<char>, from: usize, to: usize) -> (s: String)
    requires
        from <= to <= v@.len(),
    ensures
        s@ == v@.subrange(from as int, to as int),
{
    let mut s = String::new();
    let mut i: usize = from;
    while i < to
        invariant
            from <= i <= to <= v@.len(),
            s@ == v@.subrange(from as int, i as int),
        decreases to - i,
    {
        s.push(v[i]);
        i = i + 1;
    }
    s
}

/// Whether two strings hold the same text.
pub fn same(a: &str, b: &str) -> (r: bool)
    ensures
        r == (a@ == b@),
{
    a.to_owned() == b.to_owned()
}

/// Whether `part` stands in `v` at position `i`.
fn stands_at(v: &Vec<char>, part: &Vec<char>, i: usize) -> (r: bool)
    requires
        i + part@.len() <= v@.len(),
    ensures
        r == (v@.subrange(i as int, i + part@.len()) == part@),
{
    let len: usize = v.len();
    let mut k: usize = 0;
    while k < part.len()
        invariant
            0 <= k <= part@.len(),
            len == v@.len(),
            i + part@.len() <= v@.len(),
            forall|j: int| 0 <= j < k ==> v@[i + j] == part@[j],
        decreases part@.len() - k,
    {
        if v[i + k] != part[k] {
            assert(v@.subrange(i as int, i + part@.len())[k as int] != part@[k as int]);
            return false;
        }
        k = k + 1;
    }
    assert(v@.subrange(i as int, i + part@.len()) =~= part@);
    true
}

/// Whether `s` begins with `prefix`.
pub fn starts_with(s: &str, prefix: &str) -> (r: bool)
    ensures
        r == has_prefix(s@, prefix@),
{
    let v = chars_of(s);
    let p = chars_of(prefix);
    if p.len() > v.len() {
        return false;
    }
    assert(s@.take(prefix@.len() as int) == s@.subrange(0, prefix@.len() as int));
    stands_at(&v, &p, 0)
}

/// Whether `part` stands inside `s`.
pub fn contains(s: &str, part: &str) -> (r: bool)
    ensures
        r == has_part(s@, part@),
{
    let v = chars_of(s);
    let p = chars_of(part);
    if p.len() > v.len() {
        return false;
    }
    let last: usize = v.len() - p.len();
    let mut i: usize = 0;
    while i <= last
        invariant
            v@ == s@,
            p@ == part@,
            p@.len() <= v@.len(),
            last == v@.len() - p@.len(),
            0 <= i <= last + 1,
            forall|j: int| 0 <= j < i ==> !part_at(s@, part@, j),
        decreases last + 1 - i,
    {
        if stands_at(&v, &p, i) {
            assert(part_at(s@, part@, i as int));
            return true;
        }
        if i == last {
            assert(forall|j: int| 0 <= j <= last ==> !part_at(s@, part@, j));
            return false;
        }
        i = i + 1;
    }
    false
}

/// Whether `part` stands somewhere in `s` with white space or an end of `s` on
/// both sides.
pub fn contains_apart(s: &str, part: &str) -> (r: bool)
    ensures
        r == stands_apart(s@, part@),
{
    let v = chars_of(s);
    let p = chars_of(part);
    let len: usize = v.len();
    let size: usize = p.len();
    if size > len {
        return false;
    }
    let last: usize = len - size;
    let mut i: usize = 0;
    while i <= last
        invariant
            v@ == s@,
            p@ == part@,
            len == v@.len(),
            size == p@.len(),
            size <= len,
            last == len - size,
            0 <= i <= last + 1,
            forall|j: int| 0 <= j < i ==> !apart_at(s@, part@, j),
        decreases last + 1 - i,
    {
        let begins = i == 0 || is_whitespace(v[i - 1]);
        let ends = i == last || is_whitespace(v[i + size]);
        if begins && ends && stands_at(&v, &p, i) {
            assert(apart_at(s@, part@, i as int));
            return true;
        }
        if i == last {
            assert(forall|j: int| 0 <= j <= last ==> !apart_at(s@, part@, j));
            return false;
        }
        i = i + 1;
    }
    false
}

/// A split text has at least one piece.
pub proof fn lemma_split_nonempty(s: Seq<char>, sep: spec_fn(char) -> bool)
    ensures
        split_where(s, sep).len() >= 1,
    decreases s.len(),
{
    if s.len() > 0 {
        lemma_split_nonempty(s.drop_last(), sep);
    }
}

/// A text without separators is one piece.
pub proof fn lemma_no_separator(s: Seq<char>, sep: spec_fn(char) -> bool)
    requires
        forall|i: int| 0 <= i < s.len() ==> !sep(#[trigger] s[i]),
    ensures
        split_where(s, sep) == seq![s],
    decreases s.len(),
{
    if s.len() > 0 {
        let before = s.drop_last();
        assert forall|i: int| 0 <= i < before.len() implies !sep(#[trigger] before[i]) by {
            assert(before[i] == s[i]);
        }
        lemma_no_separator(before, sep);
        assert(!sep(s[s.len() - 1]));
        assert(before.push(s.last()) =~= s);
        assert(split_where(s, sep) =~= seq![s]);
    } else {
        assert(s =~= Seq::<char>::empty());
    }
}

/// The pieces of a text whose first part ends in a separator.
pub proof fn lemma_split_behind(head: Seq<char>, s: Seq<char>, sep: spec_fn(char) -> bool)
    requires
        head.len() > 0,
        sep(head.last()),
    ensures
        split_where(head + s, sep) == split_where(head, sep).drop_last() + split_where(s, sep),
    decreases s.len(),
{
    lemma_split_nonempty(head, sep);
    lemma_split_nonempty(s, sep);
    let first = split_where(head, sep).drop_last();
    if s.len() == 0 {
        assert(head + s =~= head);
        assert(split_where(head, sep).last() =~= Seq::<char>::empty());
        assert(split_where(head, sep) =~= first + seq![Seq::<char>::empty()]);
    } else {
        lemma_split_behind(head, s.drop_last(), sep);
        lemma_split_nonempty(s.drop_last(), sep);
        assert((head + s).drop_last() =~= head + s.drop_last());
        assert((head + s).last() == s.last());
        let before = split_where(s.drop_last(), sep);
        assert((first + before).last() == before.last());
        assert((first + before).drop_last() =~= first + before.drop_last());
        assert(split_where(head + s, sep) =~= first + split_where(s, sep));
    }
}

/// No white space stands in the text.
pub open spec fn unbroken(s: Seq<char>) -> bool {
    forall|i: int| 0 <= i < s.len() ==> !is_space(#[trigger] s[i])
}

/// A text without white space is one word.
pub proof fn lemma_one_word(s: Seq<char>)
    requires
        s.len() > 0,
        unbroken(s),
    ensures
        words_of(s) == seq![s],
{
    let blank = |c: char| is_space(c);
    lemma_no_separator(s, blank);
    lemma_filter_step(Seq::empty(), s);
    reveal(Seq::filter);
    assert(Seq::<Seq<char>>::empty().push(s) =~= seq![s]);
    assert(Seq::<Seq<char>>::empty().filter(|w: Seq<char>| w.len() > 0).push(s) =~= seq![s]);
}

/// White space parts the words before it from those behind it.
pub proof fn lemma_words_append(a: Seq<char>, c: char, b: Seq<char>)
    requires
        is_space(c),
    ensures
        words_of(a.push(c) + b) == words_of(a) + words_of(b),
{
    let blank = |c: char| is_space(c);
    let filled = |w: Seq<char>| w.len() > 0;
    let head = a.push(c);
    assert(blank(head.last()));
    lemma_split_behind(head, b, blank);
    assert(head.drop_last() =~= a);
    assert(split_where(head, blank).drop_last() =~= split_where(a, blank));
    Seq::filter_distributes_over_add(split_where(a, blank), split_where(b, blank), filled);
}

/// A text without a character has no words.
proof fn lemma_no_words()
    ensures
        words_of(Seq::<char>::empty()) == Seq::<Seq<char>>::empty(),
{
    let blank = |c: char| is_space(c);
    let filled = |w: Seq<char>| w.len() > 0;
    reveal(Seq::filter);
    let one = split_where(Seq::<char>::empty(), blank);
    assert(one.drop_last() =~= Seq::<Seq<char>>::empty());
    assert(one.last() == Seq::<char>::empty());
    assert(Seq::<Seq<char>>::empty().filter(filled) =~= Seq::<Seq<char>>::empty());
}

/// A text that does not end in white space has a word.
pub proof fn lemma_some_word(s: Seq<char>)
    requires
        s.len() > 0,
        !is_space(s.last()),
    ensures
        words_of(s).len() > 0,
{
    let blank = |c: char| is_space(c);
    let pieces = split_where(s, blank);
    assert(!blank(s.last()));
    assert(pieces.last().len() > 0);
    assert(pieces.drop_last().push(pieces.last()) =~= pieces);
    lemma_filter_step(pieces.drop_last(), pieces.last());
}

/// What stands apart and holds no white space is a word, behind the words before
/// it and before those behind it.
pub proof fn lemma_word_apart(s: Seq<char>, part: Seq<char>, i: int)
    requires
        apart_at(s, part, i),
        part.len() > 0,
        unbroken(part),
    ensures
        words_of(s) == words_of(s.take(i)).push(part) + words_of(s.skip(i + part.len())),
{
    let none = Seq::<char>::empty();
    let tail = s.skip(i);
    let rest = s.skip(i + part.len());
    lemma_no_words();
    lemma_one_word(part);
    assert(words_of(s) == words_of(s.take(i)) + words_of(tail)) by {
        if i > 0 {
            let a = s.take(i - 1);
            let c = s[i - 1];
            assert(s =~= a.push(c) + tail);
            assert(s.take(i) =~= a.push(c) + none);
            lemma_words_append(a, c, tail);
            lemma_words_append(a, c, none);
            assert(words_of(a) + words_of(none) =~= words_of(a));
        } else {
            assert(s.take(0) =~= none);
            assert(tail =~= s);
            assert(words_of(none) + words_of(s) =~= words_of(s));
        }
    }
    assert(words_of(tail) == seq![part] + words_of(rest)) by {
        if rest.len() > 0 {
            let c = rest[0];
            let behind = rest.drop_first();
            assert(tail =~= part.push(c) + behind) by {
                assert(tail.take(part.len() as int) =~= part);
            }
            assert(rest =~= none.push(c) + behind);
            lemma_words_append(part, c, behind);
            lemma_words_append(none, c, behind);
            assert(words_of(none) + words_of(behind) =~= words_of(behind));
        } else {
            assert(rest =~= none);
            assert(tail =~= part);
            assert(seq![part] + words_of(none) =~= seq![part]);
        }
    }
    assert(words_of(s.take(i)) + (seq![part] + words_of(rest)) =~= words_of(s.take(i)).push(part)
        + words_of(rest));
}

/// The digits of a number, in any base that is used here.
proof fn lemma_digits_unbroken(n: nat, base: nat)
    requires
        2 <= base <= 16,
    ensures
        unbroken(in_base(n, base)),
        in_base(n, base).len() > 0,
    decreases n,
{
    if n >= base {
        assert(n / base < n) by (nonlinear_arith)
            requires
                base >= 2,
                n >= base,
        ;
        assert(0 <= n % base < base) by (nonlinear_arith)
            requires
                base >= 2,
        ;
        lemma_digits_unbroken(n / base, base);
    }
}

/// The notation of a number is one word.
pub proof fn lemma_number_unbroken(n: nat)
    ensures
        unbroken(decimal(n)),
        decimal(n).len() > 0,
        unbroken(hexadecimal(n)),
        hexadecimal(n).len() > 0,
{
    lemma_digits_unbroken(n, 10);
    lemma_digits_unbroken(n, 16);
}

/// The decimal notation denotes its number.
pub proof fn lemma_decimal_value(n: nat)
    ensures
        digits_value(decimal(n)) == n,
    decreases n,
{
    if n >= 10 {
        lemma_decimal_value(n / 10);
        assert(decimal(n).drop_last() =~= decimal(n / 10));
        assert(decimal(n).last() == digit_char(n % 10));
    } else {
        assert(decimal(n).drop_last() =~= Seq::<char>::empty());
        assert(digits_value(Seq::<char>::empty()) == 0);
        assert(decimal(n).last() == digit_char(n));
    }
}

/// How one more character changes the pieces of a text.
proof fn lemma_split_step(s: Seq<char>, sep: spec_fn(char) -> bool, i: int)
    requires
        0 <= i < s.len(),
    ensures
        split_where(s.take(i + 1), sep) == if sep(s[i]) {
            split_where(s.take(i), sep).push(Seq::<char>::empty())
        } else {
            split_where(s.take(i), sep).drop_last().push(
                split_where(s.take(i), sep).last().push(s[i]),
            )
        },
{
    assert(s.take(i + 1).drop_last() =~= s.take(i));
}

/// The pieces of `s` between the occurrences of `sep`.
pub fn split(s: &str, sep: char) -> (parts: Vec<String>)
    ensures
        texts(parts@) == split_on(s@, sep),
        parts@.len() >= 1,
{
    let v = chars_of(s);
    let mut parts: Vec<String> = Vec::new();
    let mut current = String::new();
    let ghost is_sep = is_char(sep);
    assert(split_where(s@.take(0), is_sep) =~= texts(parts@).push(current@));
    let mut i: usize = 0;
    while i < v.len()
        invariant
            v@ == s@,
            0 <= i <= v@.len(),
            is_sep == is_char(sep),
            split_where(s@.take(i as int), is_sep) == texts(parts@).push(current@),
        decreases v@.len() - i,
    {
        proof {
            lemma_split_step(s@, is_sep, i as int);
        }
        let ghost before = texts(parts@);
        assert(before.push(current@).drop_last() =~= before);
        if v[i] == sep {
            let ghost piece = current@;
            parts.push(current);
            current = String::new();
            assert(texts(parts@) =~= before.push(piece));
        } else {
            current.push(v[i]);
        }
        i = i + 1;
    }
    assert(s@.take(s@.len() as int) =~= s@);
    let ghost before = texts(parts@);
    let ghost piece = current@;
    parts.push(current);
    assert(texts(parts@) =~= before.push(piece));
    parts
}

/// Whether `c` is white space.
pub fn is_whitespace(c: char) -> (r: bool)
    ensures
        r == is_space(c),
{
    let n: u32 = c as u32;
    (0x09 <= n && n <= 0x0d) || n == 0x20 || n == 0x85 || n == 0xa0 || n == 0x1680 || (0x2000 <= n
        && n <= 0x200a) || n == 0x2028 || n == 0x2029 || n == 0x202f || n == 0x205f || n == 0x3000
}

/// How one more piece changes the pieces that are not empty.
proof fn lemma_filter_step(pieces: Seq<Seq<char>>, piece: Seq<char>)
    ensures
        pieces.push(piece).filter(|w: Seq<char>| w.len() > 0) == if piece.len() > 0 {
            pieces.filter(|w: Seq<char>| w.len() > 0).push(piece)
        } else {
            pieces.filter(|w: Seq<char>| w.len() > 0)
        },
{
    reveal(Seq::filter);
    assert(pieces.push(piece).drop_last() =~= pieces);
}

/// The words of `s`: the runs of characters between white space.
pub fn split_whitespace(s: &str) -> (words: Vec<String>)
    ensures
        texts(words@) == words_of(s@),
{
    let v = chars_of(s);
    let mut words: Vec<String> = Vec::new();
    let mut current = String::new();
    let ghost blank = |c: char| is_space(c);
    let ghost mut pieces: Seq<Seq<char>> = Seq::empty();
    proof {
        reveal(Seq::filter);
        assert(split_where(s@.take(0), blank) =~= pieces.push(current@));
        assert(texts(words@) =~= pieces.filter(|w: Seq<char>| w.len() > 0));
    }
    let mut i: usize = 0;
    while i < v.len()
        invariant
            v@ == s@,
            0 <= i <= v@.len(),
            blank == (|c: char| is_space(c)),
            split_where(s@.take(i as int), blank) == pieces.push(current@),
            texts(words@) == pieces.filter(|w: Seq<char>| w.len() > 0),
        decreases v@.len() - i,
    {
        proof {
            lemma_split_step(s@, blank, i as int);
            lemma_filter_step(pieces, current@);
            assert(pieces.push(current@).drop_last() =~= pieces);
        }
        if is_whitespace(v[i]) {
            let ghost before = texts(words@);
            let ghost piece = current@;
            if !current.as_str().is_empty() {
                words.push(current);
                assert(texts(words@) =~= before.push(piece));
            }
            current = String::new();
            proof {
                pieces = pieces.push(piece);
            }
        } else {
            current.push(v[i]);
        }
        i = i + 1;
    }
    proof {
        assert(s@.take(s@.len() as int) =~= s@);
        lemma_filter_step(pieces, current@);
    }
    if !current.as_str().is_empty() {
        let ghost before = texts(words@);
        let ghost piece = current@;
        words.push(current);
        assert(texts(words@) =~= before.push(piece));
    }
    words
}

/// `s` without the white space at both ends.
pub fn trim(s: &str) -> (r: String)
    ensures
        r@ == trimmed(s@),
{
    let v = chars_of(s);
    let mut from: usize = 0;
    assert(s@.skip(0) =~= s@);
    while from < v.len() && is_whitespace(v[from])
        invariant
            v@ == s@,
            0 <= from <= v@.len(),
            trim_start(s@) == trim_start(s@.skip(from as int)),
        decreases v@.len() - from,
    {
        assert(s@.skip(from as int).drop_first() =~= s@.skip(from + 1));
        from = from + 1;
    }
    assert(trim_start(s@) == s@.skip(from as int));
    let mut to: usize = v.len();
    assert(s@.subrange(from as int, to as int) =~= s@.skip(from as int));
    while to > from && is_whitespace(v[to - 1])
        invariant
            v@ == s@,
            from <= to <= v@.len(),
            trimmed(s@) == trim_end(s@.subrange(from as int, to as int)),
        decreases to - from,
    {
        assert(s@.subrange(from as int, to as int).drop_last() =~= s@.subrange(
            from as int,
            to - 1,
        ));
        to = to - 1;
    }
    string_of(&v, from, to)
}

/// The lines of a text.
pub fn lines(s: &str) -> (r: Vec<String>)
    ensures
        texts(r@) == lines_of(s@),
{
    let mut pieces = split(s, '\n');
    let ghost all = split_on(s@, '\n');
    let ghost ended = all.drop_last().map_values(|l: Seq<char>| without_return(l));
    let mut r: Vec<String> = Vec::new();
    let count: usize = pieces.len();
    let mut i: usize = 0;
    while i < count - 1
        invariant
            count == pieces@.len(),
            count >= 1,
            0 <= i <= count - 1,
            texts(pieces@) == all,
            ended == all.drop_last().map_values(|l: Seq<char>| without_return(l)),
            texts(r@) == ended.take(i as int),
        decreases count - i,
    {
        let c = chars_of(pieces[i].as_str());
        assert(c@ == all[i as int]);
        let ghost before = texts(r@);
        if c.len() > 0 && c[c.len() - 1] == '\r' {
            let l = string_of(&c, 0, c.len() - 1);
            assert(l@ =~= without_return(all[i as int]));
            r.push(l);
        } else {
            r.push(pieces[i].clone());
        }
        assert(texts(r@) =~= before.push(without_return(all[i as int])));
        assert(ended.take(i + 1) =~= ended.take(i as int).push(ended[i as int]));
        i = i + 1;
    }
    assert(ended.take(count - 1) =~= ended);
    assert(texts(pieces@).last() == pieces@[count - 1]@);
    if !pieces[count - 1].as_str().is_empty() {
        let ghost before = texts(r@);
        r.push(pieces[count - 1].clone());
        assert(texts(r@) =~= before.push(all.last()));
    }
    r
}

/// A prefix of digits denotes no larger number than the whole.
proof fn lemma_digits_value_prefix(s: Seq<char>, i: int)
    requires
        0 <= i <= s.len(),
        forall|k: int| 0 <= k < s.len() ==> is_digit(s[k]),
    ensures
        digits_value(s.take(i)) <= digits_value(s),
    decreases s.len(),
{
    if i == s.len() {
        assert(s.take(i) =~= s);
    } else {
        lemma_digits_value_prefix(s.drop_last(), i);
        assert(s.drop_last().take(i) =~= s.take(i));
    }
}

/// The value of a decimal digit.
fn digit_of(c: char) -> (r: Option<u64>)
    ensures
        r is Some == is_digit(c),
        r matches Some(d) ==> d == c as int - '0' as int,
{
    let n: u32 = c as u32;
    if n < 48 || n > 57 {
        None
    } else {
        Some((n - 48) as u64)
    }
}

/// The number below 2^32 that `s` denotes, if it denotes one.
pub fn parse_u32(s: &str) -> (r: Option<u32>)
    ensures
        r == u32_of(s@),
{
    let v = chars_of(s);
    let from: usize = if v.len() > 0 && v[0] == '+' {
        1
    } else {
        0
    };
    let ghost digits = without_plus(s@);
    assert(digits =~= s@.skip(from as int));
    if v.len() == from {
        return None;
    }
    let mut value: u64 = 0;
    let mut i: usize = from;
    while i < v.len()
        invariant
            v@ == s@,
            digits == without_plus(s@),
            digits == s@.skip(from as int),
            from < v@.len(),
            from <= i <= v@.len(),
            forall|k: int| 0 <= k < i - from ==> is_digit(digits[k]),
            value == digits_value(digits.take(i - from)),
            value <= u32::MAX,
        decreases v@.len() - i,
    {
        assert(digits[i - from] == s@[i as int]);
        let d: u64 = match digit_of(v[i]) {
            Some(d) => d,
            None => {
                return None;
            },
        };
        assert(digits.take(i - from + 1).drop_last() =~= digits.take(i - from));
        value = value * 10 + d;
        i = i + 1;
        if value > u32::MAX as u64 {
            proof {
                if forall|k: int| 0 <= k < digits.len() ==> is_digit(digits[k]) {
                    lemma_digits_value_prefix(digits, i - from);
                }
            }
            return None;
        }
    }
    assert(digits.take(i - from) =~= digits);
    Some(value as u32)
}

/// The digit with value `d`.
fn digit(d: u8) -> (c: char)
    requires
        d < 16,
    ensures
        c == digit_char(d as nat),
{
    if d < 10 {
        (48 + d) as char
    } else {
        (87 + d) as char
    }
}

/// The notation of `n` in base `base`.
fn render(n: u64, base: u64) -> (s: String)
    requires
        2 <= base <= 16,
    ensures
        s@ == in_base(n as nat, base as nat),
    decreases n,
{
    if n < base {
        let mut s = String::new();
        s.push(digit(n as u8));
        s
    } else {
        assert(n / base < n) by (nonlinear_arith)
            requires
                base >= 2,
                n >= base,
        ;
        assert(n % base < base) by (nonlinear_arith)
            requires
                base >= 2,
        ;
        let mut s = render(n / base, base);
        s.push(digit((n % base) as u8));
        s
    }
}

/// The decimal notation of `n`.
pub fn to_decimal(n: u64) -> (s: String)
    ensures
        s@ == decimal(n as nat),
{
    render(n, 10)
}

/// The hexadecimal notation of `n`.
pub fn to_hexadecimal(n: u64) -> (s: String)
    ensures
        s@ == hexadecimal(n as nat),
{
    render(n, 16)
}

/// The decimal notation of `n`, with its sign.
pub fn to_signed_decimal(n: i32) -> (s: String)
    ensures
        s@ == signed_decimal(n as int),
{
    if n < 0 {
        let mut s = String::new();
        s.push('-');
        s.append(to_decimal((-(n as i64)) as u64).as_str());
        assert(s@ =~= signed_decimal(n as int));
        s
    } else {
        to_decimal(n as u64)
    }
}

/// `s` filled up with blanks to at least `width` characters.
pub fn pad(s: &str, width: usize) -> (r: String)
    ensures
        r@ == padded(s@, width as nat),
{
    let mut r = s.to_owned();
    let mut n: usize = s.unicode_len();
    let ghost len = s@.len();
    while n < width
        invariant
            len == s@.len(),
            n >= len,
            n <= width || n == len,
            r@ == s@ + repeated(' ', (n - len) as nat),
        decreases width - n,
    {
        r.push(' ');
        n = n + 1;
        assert(r@ =~= s@ + repeated(' ', (n - len) as nat));
    }
    assert(r@ =~= padded(s@, width as nat));
    r
}

/// `n` times the character `c`.
pub fn repeat(c: char, n: usize) -> (r: String)
    ensures
        r@ == repeated(c, n as nat),
{
    let mut r = String::new();
    let mut i: usize = 0;
    while i < n
        invariant
            0 <= i <= n,
            r@ == repeated(c, i as nat),
        decreases n - i,
    {
        r.push(c);
        i = i + 1;
        assert(r@ =~= repeated(c, i as nat));
    }
    r
}

/// The parts in order, with `sep` between neighbours.
pub fn join(parts: &Vec<String>, sep: &str) -> (r: String)
    ensures
        r@ == joined(texts(parts@), sep@),
{
    let mut r = String::new();
    let ghost all = texts(parts@);
    let mut i: usize = 0;
    while i < parts.len()
        invariant
            all == texts(parts@),
            0 <= i <= parts@.len(),
            r@ == joined(all.take(i as int), sep@),
        decreases parts@.len() - i,
    {
        assert(all.take(i + 1).drop_last() =~= all.take(i as int));
        if i > 0 {
            r.append(sep);
        }
        r.append(parts[i].as_str());
        i = i + 1;
        assert(r@ =~= joined(all.take(i as int), sep@));
    }
    assert(all.take(i as int) =~= all);
    r
}

/// Whether one of the strings holds the text `s`.
pub fn any_is(parts: &Vec<String>, s: &str) -> (r: bool)
    ensures
        r == texts(parts@).contains(s@),
{
    let mut i: usize = 0;
    while i < parts.len()
        invariant
            0 <= i <= parts@.len(),
            forall|k: int| 0 <= k < i ==> texts(parts@)[k] != s@,
        decreases parts@.len() - i,
    {
        if same(parts[i].as_str(), s) {
            assert(texts(parts@)[i as int] == s@);
            return true;
        }
        i = i + 1;
    }
    false
}

/// A text is its pieces with the separator between them, and no piece holds the
/// separator.
pub proof fn law_split_and_join(s: Seq<char>, sep: char)
    ensures
        split_on(s, sep).len() >= 1,
        joined(split_on(s, sep), seq![sep]) == s,
        forall|i: int, k: int|
            0 <= i < split_on(s, sep).len() && 0 <= k < split_on(s, sep)[i].len()
                ==> #[trigger] split_on(s, sep)[i][k] != sep,
    decreases s.len(),
{
    if s.len() > 0 {
        let before = split_on(s.drop_last(), sep);
        let now = split_on(s, sep);
        law_split_and_join(s.drop_last(), sep);
        if s.last() == sep {
            assert(now.drop_last() =~= before);
            assert(joined(now, seq![sep]) =~= s);
            assert forall|i: int, k: int|
                0 <= i < now.len() && 0 <= k < now[i].len() implies #[trigger] now[i][k] != sep by {
                if i < before.len() {
                    assert(before[i][k] != sep);
                }
            }
        } else {
            assert(now.drop_last() =~= before.drop_last());
            assert(now.last() == before.last().push(s.last()));
            let whole = s.drop_last();
            assert(s =~= whole.push(s.last()));
            if before.len() == 1 {
                assert(before[0] == whole);
                assert(now[0] == s);
            } else {
                let first = joined(before.drop_last(), seq![sep]) + seq![sep];
                assert(whole == first + before.last());
                assert(joined(now, seq![sep]) == first + now.last());
                assert(first + before.last().push(s.last()) =~= whole.push(s.last()));
            }
            assert forall|i: int, k: int|
                0 <= i < now.len() && 0 <= k < now[i].len() implies #[trigger] now[i][k] != sep by {
                if k < before[i].len() {
                    assert(before[i][k] != sep);
                }
            }
        }
    } else {
        assert(split_on(s, sep) =~= seq![Seq::<char>::empty()]);
    }
}

/// Two lists that are joined behind each other have the separator between them.
pub proof fn law_join_behind(a: Seq<Seq<char>>, b: Seq<Seq<char>>, sep: Seq<char>)
    ensures
        a.len() > 0 && b.len() > 0 ==> joined(a + b, sep) == joined(a, sep) + sep + joined(b, sep),
        a.len() == 1 ==> joined(a, sep) == a[0],
        a.len() == 0 ==> joined(a, sep).len() == 0,
    decreases b.len(),
{
    if a.len() > 0 && b.len() > 1 {
        law_join_behind(a, b.drop_last(), sep);
        assert((a + b).drop_last() =~= a + b.drop_last());
        assert(joined(a + b, sep) =~= joined(a, sep) + sep + joined(b, sep));
    } else if a.len() > 0 && b.len() == 1 {
        assert((a + b).drop_last() =~= a);
        assert((a + b).last() == b[0]);
    }
}

/// White space is what Unicode calls so: tabulator, line feed, vertical tabulator,
/// form feed, carriage return, blank, next line, no-break space, and the spaces of
/// other scripts.
pub proof fn law_white_space(c: char, r: bool)
    requires
        call_ensures(is_whitespace, (c,), r),
    ensures
        r <==> (c == '\t' || c == '\n' || c == '\x0b' || c == '\x0c' || c == '\r' || c == ' ' || c
            == '\u{85}' || c == '\u{a0}' || c == '\u{1680}' || '\u{2000}' as int <= c as int
            <= '\u{200a}' as int || c == '\u{2028}' || c == '\u{2029}' || c == '\u{202f}' || c
            == '\u{205f}' || c == '\u{3000}'),
        r == is_space(c),
{
}

/// The words of a text are not empty, hold no white space, and are together all of
/// the text but its white space, in order.
pub proof fn law_words_are_the_text(s: Seq<char>)
    ensures
        forall|i: int|
            0 <= i < words_of(s).len() ==> (#[trigger] words_of(s)[i]).len() > 0 && unbroken(
                words_of(s)[i],
            ),
        words_of(s).flatten_alt() == s.filter(|c: char| !is_space(c)),
    decreases s.len(),
{
    let blank = |c: char| is_space(c);
    let filled = |w: Seq<char>| w.len() > 0;
    let pieces = split_where(s, blank);
    lemma_pieces_are_the_text(s, blank);
    lemma_filled_pieces(pieces);
    let solid = |c: char| !blank(c);
    let dense = |c: char| !is_space(c);
    assert(solid =~= dense);
    assert forall|i: int| 0 <= i < words_of(s).len() implies (#[trigger] words_of(s)[i]).len() > 0
        && unbroken(words_of(s)[i]) by {
        pieces.lemma_filter_pred(filled, i);
        assert(pieces.filter(filled).contains(words_of(s)[i]));
        pieces.lemma_filter_contains_rev(filled, words_of(s)[i]);
        let k = choose|k: int| 0 <= k < pieces.len() && pieces[k] == words_of(s)[i];
        assert forall|j: int| 0 <= j < pieces[k].len() implies !is_space(
            #[trigger] pieces[k][j],
        ) by {
            assert(!blank(pieces[k][j]));
        }
    }
}

/// The pieces of a text are together all of it but the separators.
proof fn lemma_pieces_are_the_text(s: Seq<char>, sep: spec_fn(char) -> bool)
    ensures
        split_where(s, sep).flatten_alt() == s.filter(|c: char| !sep(c)),
        forall|i: int, k: int|
            0 <= i < split_where(s, sep).len() && 0 <= k < split_where(s, sep)[i].len() ==> !sep(
                #[trigger] split_where(s, sep)[i][k],
            ),
    decreases s.len(),
{
    reveal(Seq::filter);
    let now = split_where(s, sep);
    if s.len() == 0 {
        assert(now.drop_last().flatten_alt() =~= Seq::<char>::empty());
        assert(now.flatten_alt() =~= Seq::<char>::empty());
    } else {
        lemma_pieces_are_the_text(s.drop_last(), sep);
        lemma_split_nonempty(s.drop_last(), sep);
        let before = split_where(s.drop_last(), sep);
        if sep(s.last()) {
            assert(now.drop_last() =~= before);
            assert(now.flatten_alt() =~= before.flatten_alt());
        } else {
            assert(now.drop_last() =~= before.drop_last());
            assert(now.flatten_alt() =~= before.flatten_alt().push(s.last()));
        }
        assert forall|i: int, k: int|
            0 <= i < now.len() && 0 <= k < now[i].len() implies !sep(#[trigger] now[i][k]) by {
            if i < before.len() && k < before[i].len() {
                assert(!sep(before[i][k]));
            }
        }
    }
}

/// Empty pieces add nothing.
proof fn lemma_filled_pieces(pieces: Seq<Seq<char>>)
    ensures
        pieces.filter(|w: Seq<char>| w.len() > 0).flatten_alt() == pieces.flatten_alt(),
    decreases pieces.len(),
{
    reveal(Seq::filter);
    if pieces.len() > 0 {
        let first = pieces.drop_last();
        lemma_filled_pieces(first);
        lemma_filter_step(first, pieces.last());
        assert(first.push(pieces.last()) =~= pieces);
        let kept = first.filter(|w: Seq<char>| w.len() > 0);
        assert(kept.push(pieces.last()).drop_last() =~= kept);
        assert(first.flatten_alt() + pieces.last() =~= pieces.flatten_alt());
        if pieces.last().len() == 0 {
            assert(first.flatten_alt() + pieces.last() =~= first.flatten_alt());
        }
    }
}

/// Trimming takes white space from both ends and nothing else, and leaves none
/// there.
pub proof fn law_trimmed(s: Seq<char>) -> (r: (int, int))
    ensures
        0 <= r.0 <= r.1 <= s.len(),
        trimmed(s) == s.subrange(r.0, r.1),
        forall|i: int| 0 <= i < r.0 ==> is_space(#[trigger] s[i]),
        forall|i: int| r.1 <= i < s.len() ==> is_space(#[trigger] s[i]),
        r.0 < r.1 ==> !is_space(s[r.0]) && !is_space(s[r.1 - 1]),
{
    let i = lemma_trim_start(s);
    let rest = s.skip(i);
    let n = lemma_trim_end(rest);
    assert(rest.take(n) =~= s.subrange(i, i + n));
    assert forall|k: int| i + n <= k < s.len() implies is_space(#[trigger] s[k]) by {
        assert(is_space(rest[k - i]));
    }
    assert(0 < n ==> rest[0] == s[i] && rest[n - 1] == s[i + n - 1]);
    (i, i + n)
}

proof fn lemma_trim_start(s: Seq<char>) -> (i: int)
    ensures
        0 <= i <= s.len(),
        trim_start(s) == s.skip(i),
        forall|k: int| 0 <= k < i ==> is_space(#[trigger] s[k]),
        i < s.len() ==> !is_space(s[i]),
    decreases s.len(),
{
    if s.len() > 0 && is_space(s[0]) {
        let rest = s.drop_first();
        let j = lemma_trim_start(rest);
        assert(rest.skip(j) =~= s.skip(j + 1));
        assert forall|k: int| 0 <= k < j + 1 implies is_space(#[trigger] s[k]) by {
            if k > 0 {
                assert(is_space(rest[k - 1]));
            }
        }
        assert(j < rest.len() ==> rest[j] == s[j + 1]);
        j + 1
    } else {
        assert(s.skip(0) =~= s);
        0
    }
}

proof fn lemma_trim_end(s: Seq<char>) -> (n: int)
    ensures
        0 <= n <= s.len(),
        trim_end(s) == s.take(n),
        forall|k: int| n <= k < s.len() ==> is_space(#[trigger] s[k]),
        n > 0 ==> !is_space(s[n - 1]),
    decreases s.len(),
{
    if s.len() > 0 && is_space(s.last()) {
        let rest = s.drop_last();
        let n = lemma_trim_end(rest);
        assert(rest.take(n) =~= s.take(n));
        assert forall|k: int| n <= k < s.len() implies is_space(#[trigger] s[k]) by {
            if k < s.len() - 1 {
                assert(is_space(rest[k]));
            }
        }
        n
    } else {
        assert(s.take(s.len() as int) =~= s);
        s.len() as int
    }
}

/// The first line of a text ends at the first line feed, without the carriage
/// return before it, and the other lines are those of what follows. A text without
/// line feeds is one line, an empty one none.
pub proof fn law_lines(a: Seq<char>, b: Seq<char>)
    requires
        !a.contains('\n'),
    ensures
        lines_of(a.push('\n') + b) == seq![
            if a.len() > 0 && a.last() == '\r' {
                a.drop_last()
            } else {
                a
            },
        ] + lines_of(b),
        a.len() > 0 ==> lines_of(a) == seq![a],
        a.len() == 0 ==> lines_of(a).len() == 0,
{
    let feed = is_char('\n');
    let head = a.push('\n');
    assert forall|i: int| 0 <= i < a.len() implies !feed(#[trigger] a[i]) by {
        assert(a.contains(a[i]));
    }
    lemma_no_separator(a, feed);
    lemma_split_nonempty(b, feed);
    lemma_split_behind(head, b, feed);
    assert(head.drop_last() =~= a);
    assert(split_where(head, feed) =~= seq![a, Seq::<char>::empty()]);
    let pieces = split_on(head + b, '\n');
    let rest = split_on(b, '\n');
    assert(pieces =~= seq![a] + rest);
    assert(pieces.last() == rest.last());
    let ended = pieces.drop_last().map_values(|l: Seq<char>| without_return(l));
    assert(ended =~= seq![without_return(a)] + rest.drop_last().map_values(
        |l: Seq<char>| without_return(l),
    ));
    assert(lines_of(head + b) =~= seq![without_return(a)] + lines_of(b));
    assert(split_on(a, '\n') == seq![a]);
    assert(lines_of(a) =~= if a.len() == 0 {
        Seq::<Seq<char>>::empty()
    } else {
        seq![a]
    });
}

/// A number is read digit by digit: one more digit makes ten times the number and
/// the digit, as long as that fits. A plus sign may come first; nothing else is
/// read, and a text without digits denotes nothing.
pub proof fn law_numbers_are_read(s: Seq<char>, c: char)
    ensures
        u32_of(Seq::empty()) is None,
        u32_of(seq!['+']) is None,
        '0' as int <= c as int <= '9' as int ==> u32_of(seq![c]) == Some(
            (c as int - '0' as int) as u32,
        ),
        s.len() > 0 && s != seq!['+'] && '0' as int <= c as int <= '9' as int ==> u32_of(s.push(c))
            == match u32_of(s) {
            Some(n) => if n * 10 + (c as int - '0' as int) <= 4294967295 {
                Some((n * 10 + (c as int - '0' as int)) as u32)
            } else {
                None
            },
            None => None,
        },
        !('0' as int <= c as int <= '9' as int) ==> u32_of(s.push(c)) is None,
        s.len() > 0 && s[0] != '+' ==> u32_of(seq!['+'] + s) == u32_of(s),
{
    let one = seq![c];
    assert(one.drop_last() =~= Seq::<char>::empty());
    assert(digits_value(Seq::<char>::empty()) == 0);
    assert(digits_value(one) == (c as int - '0' as int) as nat || !is_digit(c));
    assert(seq!['+'].drop_first() =~= Seq::<char>::empty());
    let signed = seq!['+'] + s;
    assert(signed.drop_first() =~= s);
    let longer = s.push(c);
    if s.len() > 0 && s != seq!['+'] {
        let d = without_plus(s);
        assert(without_plus(longer) =~= d.push(c));
        if s[0] == '+' {
            assert(s =~= seq!['+'] + d);
            assert(d.len() > 0);
        }
        let e = d.push(c);
        assert(e.drop_last() =~= d);
        assert(forall|i: int| 0 <= i < d.len() ==> e[i] == d[i]);
        assert(e[d.len() as int] == c);
        if is_digit(c) {
            if forall|i: int| 0 <= i < d.len() ==> is_digit(d[i]) {
                assert forall|i: int| 0 <= i < e.len() implies is_digit(e[i]) by {
                    if i < d.len() {
                        assert(is_digit(d[i]));
                    }
                }
            } else {
                let i = choose|i: int| 0 <= i < d.len() && !is_digit(d[i]);
                assert(!is_digit(e[i]));
            }
        }
    }
    if !is_digit(c) {
        let d = without_plus(longer);
        if d.len() > 0 {
            assert(d[d.len() - 1] == c);
        }
    }
}

/// The decimal notation of a number: one more digit stands for ten times the
/// number and the digit.
pub proof fn law_decimal(n: nat, d: nat)
    requires
        d < 10,
    ensures
        decimal(d) == seq!["0123456789"@[d as int]],
        n > 0 ==> decimal(n * 10 + d) == decimal(n).push("0123456789"@[d as int]),
{
    reveal_strlit("0123456789");
    assert((n * 10 + d) / 10 == n);
    assert((n * 10 + d) % 10 == d);
    assert(digit_char(d) == "0123456789"@[d as int]);
}

/// The hexadecimal notation of a number: one more digit stands for sixteen times
/// the number and the digit.
pub proof fn law_hexadecimal(n: nat, d: nat)
    requires
        d < 16,
    ensures
        hexadecimal(d) == seq!["0123456789abcdef"@[d as int]],
        n > 0 ==> hexadecimal(n * 16 + d) == hexadecimal(n).push("0123456789abcdef"@[d as int]),
{
    reveal_strlit("0123456789abcdef");
    assert((n * 16 + d) / 16 == n);
    assert((n * 16 + d) % 16 == d);
    assert(digit_char(d) == "0123456789abcdef"@[d as int]);
}

/// A negative number has a minus sign before it, another one nothing.
pub proof fn law_signed_decimal(n: nat)
    ensures
        signed_decimal(n as int) == decimal(n),
        n > 0 ==> signed_decimal(-(n as int)) == "-"@ + decimal(n),
{
    reveal_strlit("-");
    assert("-"@ =~= seq!['-']);
}

/// What is written in decimal is read as the same number.
pub proof fn law_written_numbers_are_read(n: u32)
    ensures
        u32_of(decimal(n as nat)) == Some(n),
{
    lemma_decimal_digits(n as nat);
    lemma_decimal_value(n as nat);
}

/// The decimal notation is made of digits.
pub proof fn lemma_decimal_digits(n: nat)
    ensures
        decimal(n).len() > 0,
        forall|i: int| 0 <= i < decimal(n).len() ==> is_digit(#[trigger] decimal(n)[i]),
        forall|i: int| 0 <= i < decimal(n).len() ==> decimal(n)[i] != '+' && decimal(n)[i] != '.',
    decreases n,
{
    if n >= 10 {
        lemma_decimal_digits(n / 10);
        assert(decimal(n) == decimal(n / 10).push(digit_char(n % 10)));
        assert forall|i: int| 0 <= i < decimal(n).len() implies is_digit(
            #[trigger] decimal(n)[i],
        ) by {
            if i < decimal(n / 10).len() {
                assert(is_digit(decimal(n / 10)[i]));
            }
        }
    }
    assert forall|i: int| 0 <= i < decimal(n).len() implies decimal(n)[i] != '+' && decimal(n)[i]
        != '.' by {
        assert(is_digit(decimal(n)[i]));
    }
}

/// Padding keeps the text and puts blanks behind it, up to the width and no
/// further.
pub proof fn law_padded(s: Seq<char>, width: nat)
    ensures
        padded(s, width).len() == if s.len() < width {
            width
        } else {
            s.len()
        },
        padded(s, width).take(s.len() as int) == s,
        forall|i: int| s.len() <= i < padded(s, width).len() ==> padded(s, width)[i] == ' ',
{
    assert(padded(s, width).take(s.len() as int) =~= s);
}

/// A character that is repeated is all that the text holds.
pub proof fn law_repeated(c: char, n: nat)
    ensures
        repeated(c, n).len() == n,
        forall|i: int| 0 <= i < n ==> repeated(c, n)[i] == c,
{
}

/// A text begins with another one exactly where it is that one with something
/// behind it.
pub proof fn law_prefix(s: Seq<char>, prefix: Seq<char>)
    ensures
        has_prefix(s, prefix) <==> exists|rest: Seq<char>| s == #[trigger] (prefix + rest),
{
    if has_prefix(s, prefix) {
        assert(s =~= prefix + s.skip(prefix.len() as int));
    }
    if exists|rest: Seq<char>| s == #[trigger] (prefix + rest) {
        let rest = choose|rest: Seq<char>| s == #[trigger] (prefix + rest);
        assert(s.take(prefix.len() as int) =~= prefix);
    }
}

/// A text stands inside another one exactly where that one is it with something
/// before and behind it.
pub proof fn law_part(s: Seq<char>, part: Seq<char>)
    ensures
        has_part(s, part) <==> exists|a: Seq<char>, b: Seq<char>| s == #[trigger] (a + part + b),
{
    if has_part(s, part) {
        let i = choose|i: int| part_at(s, part, i);
        assert(s =~= s.take(i) + part + s.skip(i + part.len())) by {
            assert(s.subrange(i, i + part.len()) == part);
        }
    }
    if exists|a: Seq<char>, b: Seq<char>| s == #[trigger] (a + part + b) {
        let (a, b) = choose|a: Seq<char>, b: Seq<char>| s == #[trigger] (a + part + b);
        assert(s.subrange(a.len() as int, a.len() as int + part.len()) =~= part);
        assert(part_at(s, part, a.len() as int));
    }
}

/// A text stands apart in another one exactly where what is before it is empty or
/// ends in white space, and what is behind it is empty or begins with it.
pub proof fn law_apart(s: Seq<char>, part: Seq<char>)
    ensures
        stands_apart(s, part) <==> exists|a: Seq<char>, b: Seq<char>|
            {
                &&& s == #[trigger] (a + part + b)
                &&& a.len() == 0 || is_space(a.last())
                &&& b.len() == 0 || is_space(b[0])
            },
{
    if stands_apart(s, part) {
        let i = choose|i: int| apart_at(s, part, i);
        let a = s.take(i);
        let b = s.skip(i + part.len());
        assert(s =~= a + part + b) by {
            assert(s.subrange(i, i + part.len()) == part);
        }
    }
    if exists|a: Seq<char>, b: Seq<char>|
        {
            &&& s == #[trigger] (a + part + b)
            &&& a.len() == 0 || is_space(a.last())
            &&& b.len() == 0 || is_space(b[0])
        } {
        let (a, b) = choose|a: Seq<char>, b: Seq<char>|
            {
                &&& s == #[trigger] (a + part + b)
                &&& a.len() == 0 || is_space(a.last())
                &&& b.len() == 0 || is_space(b[0])
            };
        assert(s.subrange(a.len() as int, a.len() as int + part.len()) =~= part);
        assert(apart_at(s, part, a.len() as int));
    }
}

} // verus!
