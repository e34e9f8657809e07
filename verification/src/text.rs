//! Text as sequences of characters: joining, searching, replacing, padding and
//! the decimal notation of numbers.
use vstd::prelude::*;

verus! {

/// `String::push` appends one character.
pub assume_specification[ String::push ](s: &mut String, c: char)
    ensures
        final(s)@ == old(s)@.push(c),
;

/// `==` on `str` holds exactly where the two texts have the same characters.
pub assume_specification[ <str as PartialEq>::eq ](a: &str, b: &str) -> (r: bool)
    ensures
        r == (a@ == b@),
;

// ---------------------------------------------------------------------------
// Specifications
// ---------------------------------------------------------------------------

/// The characters of each text.
pub open spec fn views(texts: Seq<String>) -> Seq<Seq<char>> {
    Seq::new(texts.len(), |i: int| texts[i]@)
}

/// The texts one after the other, with `sep` between neighbours.
pub open spec fn join(parts: Seq<Seq<char>>, sep: Seq<char>) -> Seq<char>
    decreases parts.len(),
{
    if parts.len() == 0 {
        Seq::empty()
    } else if parts.len() == 1 {
        parts[0]
    } else {
        join(parts.drop_last(), sep) + sep + parts.last()
    }
}

/// The decimal digit for a number below ten.
pub open spec fn digit(d: nat) -> char {
    (48 + d) as char
}

/// A natural number in decimal notation.
pub open spec fn dec(n: nat) -> Seq<char>
    decreases n,
{
    if n < 10 {
        seq![digit(n)]
    } else {
        dec(n / 10).push(digit(n % 10))
    }
}

/// An integer in decimal notation, with a minus sign where it is negative.
pub open spec fn dec_int(n: int) -> Seq<char> {
    if n < 0 {
        seq!['-'] + dec((-n) as nat)
    } else {
        dec(n as nat)
    }
}

/// `n` copies of `c`.
pub open spec fn repeat(c: char, n: nat) -> Seq<char> {
    Seq::new(n, |i: int| c)
}

/// `text` with spaces behind it up to `width` characters.
pub open spec fn pad_right(text: Seq<char>, width: nat) -> Seq<char> {
    if text.len() >= width {
        text
    } else {
        text + repeat(' ', (width - text.len()) as nat)
    }
}

/// `text` with zeros before it up to `width` characters.
pub open spec fn zero_pad(text: Seq<char>, width: nat) -> Seq<char> {
    if text.len() >= width {
        text
    } else {
        repeat('0', (width - text.len()) as nat) + text
    }
}

/// `part` stands in `text` from position `i` on.
pub open spec fn occurs_at(text: Seq<char>, part: Seq<char>, i: int) -> bool {
    &&& 0 <= i
    &&& i + part.len() <= text.len()
    &&& text.subrange(i, i + part.len()) == part
}

/// `part` stands somewhere in `text`.
pub open spec fn contains(text: Seq<char>, part: Seq<char>) -> bool {
    exists|i: int| occurs_at(text, part, i)
}

pub open spec fn starts_with(text: Seq<char>, prefix: Seq<char>) -> bool {
    prefix.len() <= text.len() && text.take(prefix.len() as int) == prefix
}

pub open spec fn ends_with(text: Seq<char>, suffix: Seq<char>) -> bool {
    suffix.len() <= text.len() && text.skip(text.len() - suffix.len()) == suffix
}

/// `text` with every occurrence of `from`, taken from the left and without
/// overlap, replaced by `to`.
pub open spec fn replace(text: Seq<char>, from: Seq<char>, to: Seq<char>) -> Seq<char>
    decreases text.len(),
{
    if from.len() == 0 || text.len() < from.len() {
        text
    } else if starts_with(text, from) {
        to + replace(text.skip(from.len() as int), from, to)
    } else {
        seq![text[0]] + replace(text.skip(1), from, to)
    }
}

/// The characters with the Unicode property White_Space.
pub open spec fn is_space(c: char) -> bool {
    let n = c as int;
    ||| 0x9 <= n <= 0xD
    ||| n == 0x20
    ||| n == 0x85
    ||| n == 0xA0
    ||| n == 0x1680
    ||| 0x2000 <= n <= 0x200A
    ||| n == 0x2028
    ||| n == 0x2029
    ||| n == 0x202F
    ||| n == 0x205F
    ||| n == 0x3000
}

/// `text` without the white space at its start.
pub open spec fn trim_start(text: Seq<char>) -> Seq<char>
    decreases text.len(),
{
    if text.len() > 0 && is_space(text[0]) {
        trim_start(text.skip(1))
    } else {
        text
    }
}

/// `text` without the white space at its end.
pub open spec fn trim_end(text: Seq<char>) -> Seq<char>
    decreases text.len(),
{
    if text.len() > 0 && is_space(text.last()) {
        trim_end(text.drop_last())
    } else {
        text
    }
}

pub open spec fn trim(text: Seq<char>) -> Seq<char> {
    trim_end(trim_start(text))
}

/// The longest start of `text` without white space.
pub open spec fn word_start(text: Seq<char>) -> Seq<char>
    decreases text.len(),
{
    if text.len() == 0 || is_space(text[0]) {
        Seq::empty()
    } else {
        seq![text[0]] + word_start(text.skip(1))
    }
}

/// The first word of `text`, empty where it has none.
pub open spec fn first_word(text: Seq<char>) -> Seq<char> {
    word_start(trim_start(text))
}

/// The number of bytes that `text` takes in UTF-8.
pub open spec fn byte_len(text: Seq<char>) -> nat {
    vstd::utf8::encode_utf8(text).len()
}

/// Every character takes a byte at least.
pub proof fn lemma_bytes_of_characters(text: Seq<char>)
    ensures
        byte_len(text) >= text.len(),
        text.len() == 0 ==> byte_len(text) == 0,
    decreases text.len(),
{
    if text.len() > 0 {
        lemma_bytes_of_characters(text.drop_first());
    }
}

proof fn lemma_word_start(text: Seq<char>)
    ensures
        ({
            let word = word_start(text);
            &&& word.len() <= text.len()
            &&& text.subrange(0, word.len() as int) == word
            &&& forall|i: int| 0 <= i < word.len() ==> !is_space(#[trigger] text[i])
            &&& word.len() < text.len() ==> is_space(text[word.len() as int])
        }),
    decreases text.len(),
{
    let word = word_start(text);
    if text.len() > 0 && !is_space(text[0]) {
        let rest = text.skip(1);
        lemma_word_start(rest);
        let tail = word_start(rest);
        assert forall|i: int| 0 <= i < word.len() implies text[i] == word[i] && !is_space(
            #[trigger] text[i],
        ) by {
            if i > 0 {
                assert(rest[i - 1] == text[i]);
                assert(rest.subrange(0, tail.len() as int)[i - 1] == tail[i - 1]);
            }
        }
        if word.len() < text.len() {
            assert(rest[tail.len() as int] == text[word.len() as int]);
        }
    }
    assert(text.subrange(0, word.len() as int) =~= word);
}

/// A text without the part to be replaced stays as it is; in another the first
/// occurrence gives way, what stands before it stays, and the same goes for the rest.
#[verifier::rlimit(40)]
pub proof fn law_replacing_starts_with_the_first(
    text: Seq<char>,
    from: Seq<char>,
    to: Seq<char>,
    i: int,
)
    requires
        from.len() > 0,
        0 <= i <= text.len(),
        forall|j: int|
            0 <= j < i && j + from.len() <= text.len() ==> #[trigger] text.subrange(
                j,
                j + from.len(),
            ) != from,
    ensures
        i == text.len() ==> replace(text, from, to) == text,
        i + from.len() <= text.len() && text.subrange(i, i + from.len()) == from ==> replace(
            text,
            from,
            to,
        ) == text.take(i) + to + replace(text.skip(i + from.len()), from, to),
    decreases text.len(),
{
    let n = from.len() as int;
    if text.len() < n {
    } else if i == 0 {
        assert(text.take(n) =~= text.subrange(0, n));
        assert(text.take(0) + to =~= to);
        assert(text.skip(0 + n) =~= text.skip(n));
    } else {
        assert(text.subrange(0, 0 + n) != from);
        assert(text.take(n) =~= text.subrange(0, n));
        let rest = text.skip(1);
        assert forall|j: int|
            0 <= j < i - 1 && j + n <= rest.len() implies #[trigger] rest.subrange(
            j,
            j + n,
        ) != from by {
            assert(rest.subrange(j, j + n) =~= text.subrange(j + 1, j + 1 + n));
        }
        law_replacing_starts_with_the_first(rest, from, to, i - 1);
        assert(replace(text, from, to) == seq![text[0]] + replace(rest, from, to));
        assert(seq![text[0]] + rest =~= text);
        if i + n <= text.len() {
            assert(rest.subrange(i - 1, i - 1 + n) =~= text.subrange(i, i + n));
            assert(rest.skip(i - 1 + n) =~= text.skip(i + n));
            let last = replace(text.skip(i + n), from, to);
            assert(seq![text[0]] + rest.take(i - 1) =~= text.take(i));
            lemma_one_before_three(text[0], rest.take(i - 1), to, last);
        }
    }
}

proof fn lemma_one_before_three(c: char, a: Seq<char>, b: Seq<char>, d: Seq<char>)
    ensures
        seq![c] + (a + b + d) == seq![c] + a + b + d,
{
    assert(seq![c] + (a + b + d) =~= seq![c] + a + b + d);
}

/// White space is taken off at both ends, and nothing else.
pub proof fn law_trim_takes_white_space_only(text: Seq<char>) -> (at: int)
    ensures
        ({
            let kept = trim(text);
            let end = at + kept.len();
            &&& 0 <= at
            &&& end <= text.len()
            &&& text.subrange(at, end) == kept
            &&& forall|i: int| 0 <= i < at ==> is_space(#[trigger] text[i])
            &&& forall|i: int| end <= i < text.len() ==> is_space(#[trigger] text[i])
            &&& kept.len() > 0 ==> !is_space(kept[0]) && !is_space(kept.last())
        }),
    decreases text.len(),
{
    let kept = trim(text);
    if text.len() > 0 && is_space(text[0]) {
        let rest = text.skip(1);
        let behind = law_trim_takes_white_space_only(rest);
        let at = behind + 1;
        assert(text.subrange(at, at + kept.len()) =~= rest.subrange(behind, behind + kept.len()));
        assert forall|i: int| 0 <= i < at implies is_space(#[trigger] text[i]) by {
            if i > 0 {
                assert(text[i] == rest[i - 1]);
            }
        }
        assert forall|i: int| at + kept.len() <= i < text.len() implies is_space(
            #[trigger] text[i],
        ) by {
            assert(text[i] == rest[i - 1]);
        }
        at
    } else {
        lemma_trim_end(text);
        0
    }
}

proof fn lemma_trim_end(text: Seq<char>)
    ensures
        ({
            let kept = trim_end(text);
            &&& kept.len() <= text.len()
            &&& text.subrange(0, kept.len() as int) == kept
            &&& forall|i: int| kept.len() <= i < text.len() ==> is_space(#[trigger] text[i])
            &&& kept.len() > 0 ==> !is_space(kept.last())
        }),
    decreases text.len(),
{
    let kept = trim_end(text);
    if text.len() > 0 && is_space(text.last()) {
        let rest = text.drop_last();
        lemma_trim_end(rest);
        assert(text.subrange(0, kept.len() as int) =~= rest.subrange(0, kept.len() as int));
        assert forall|i: int| kept.len() <= i < text.len() implies is_space(#[trigger] text[i]) by {
            if i < rest.len() {
                assert(text[i] == rest[i]);
            }
        }
    } else {
        assert(text.subrange(0, text.len() as int) =~= text);
    }
}

/// The first word is cut out where white space ends: only white space stands before
/// it, none in it, and nothing else directly behind it. It is empty only in a text of
/// white space.
pub proof fn law_first_word_is_between_spaces(text: Seq<char>) -> (at: int)
    ensures
        ({
            let word = first_word(text);
            let end = at + word.len();
            &&& 0 <= at
            &&& end <= text.len()
            &&& text.subrange(at, end) == word
            &&& forall|i: int| 0 <= i < at ==> is_space(#[trigger] text[i])
            &&& forall|i: int| at <= i < end ==> !is_space(#[trigger] text[i])
            &&& end < text.len() ==> is_space(text[end])
            &&& word.len() == 0 ==> at == text.len()
        }),
    decreases text.len(),
{
    if text.len() > 0 && is_space(text[0]) {
        let behind = law_first_word_is_between_spaces(text.skip(1));
        let at = behind + 1;
        let word = first_word(text);
        assert(text.subrange(at, at + word.len()) =~= text.skip(1).subrange(
            behind,
            behind + word.len(),
        ));
        assert forall|i: int| 0 <= i < at implies is_space(#[trigger] text[i]) by {
            if i > 0 {
                assert(text[i] == text.skip(1)[i - 1]);
            }
        }
        assert forall|i: int| at <= i < at + word.len() implies !is_space(#[trigger] text[i]) by {
            assert(text[i] == text.skip(1)[i - 1]);
        }
        at
    } else {
        lemma_word_start(text);
        0
    }
}

// ---------------------------------------------------------------------------
// Operations
// ---------------------------------------------------------------------------

/// Whether two texts are the same.
pub fn same(a: &str, b: &str) -> (r: bool)
    ensures
        r == (a@ == b@),
{
    *a == *b
}

/// The characters of a text.
pub fn chars_of(s: &str) -> (v: Vec<char>)
    ensures
        v@ == s@,
{
    let mut v: Vec<char> = Vec::new();
    for c in it: s.chars()
        invariant
            v@ == s@.take(it.index()),
            it.seq() == s@,
    {
        v.push(c);
    }
    v
}

/// The text between two positions, counted in characters.
pub fn slice_string(chars: &[char], from: usize, to: usize) -> (s: String)
    requires
        from <= to <= chars.len(),
    ensures
        s@ == chars@.subrange(from as int, to as int),
{
    let mut s = String::new();
    let mut i: usize = from;
    while i < to
        invariant
            from <= i <= to <= chars.len(),
            s@ == chars@.subrange(from as int, i as int),
        decreases to - i,
    {
        s.push(chars[i]);
        i += 1;
    }
    s
}

/// A copy of a list of texts.
pub fn copy_strings(v: &[String]) -> (r: Vec<String>)
    ensures
        r@ == v@,
        views(r@) == views(v@),
{
    let mut r: Vec<String> = Vec::new();
    let mut i: usize = 0;
    while i < v.len()
        invariant
            i <= v.len(),
            r@ == v@.take(i as int),
        decreases v.len() - i,
    {
        r.push(v[i].clone());
        i += 1;
    }
    r
}

/// Whether a list of texts holds a given one.
pub fn list_has(list: &[String], text: &str) -> (r: bool)
    ensures
        r == views(list@).contains(text@),
{
    let mut i: usize = 0;
    while i < list.len()
        invariant
            i <= list.len(),
            forall|j: int| 0 <= j < i ==> #[trigger] views(list@)[j] != text@,
        decreases list.len() - i,
    {
        if same(list[i].as_str(), text) {
            proof {
                assert(views(list@)[i as int] == text@);
            }
            return true;
        }
        i += 1;
    }
    false
}

/// Joins texts, with `sep` between neighbours.
pub fn join_strings(parts: &[String], sep: &str) -> (r: String)
    ensures
        r@ == join(views(parts@), sep@),
{
    let mut r = String::new();
    let mut i: usize = 0;
    while i < parts.len()
        invariant
            i <= parts.len(),
            r@ == join(views(parts@).take(i as int), sep@),
        decreases parts.len() - i,
    {
        proof {
            let next = views(parts@).take(i + 1);
            assert(next.drop_last() =~= views(parts@).take(i as int));
            assert(next.last() == parts@[i as int]@);
            if i == 0 {
                assert(r@ + next[0] =~= next[0]);
            }
        }
        if i > 0 {
            r.append(sep);
        }
        r.append(parts[i].as_str());
        i += 1;
    }
    proof {
        assert(views(parts@).take(i as int) =~= views(parts@));
    }
    r
}

/// Appends a number in decimal notation.
pub fn push_dec(out: &mut String, n: u64)
    ensures
        final(out)@ == old(out)@ + dec(n as nat),
    decreases n,
{
    if n < 10 {
        let d: u8 = (n as u8) + 48;
        out.push(d as char);
        proof {
            assert(dec(n as nat) =~= seq![digit(n as nat)]);
        }
    } else {
        let d: u8 = ((n % 10) as u8) + 48;
        push_dec(out, n / 10);
        out.push(d as char);
        proof {
            assert(out@ =~= old(out)@ + dec((n / 10) as nat).push(digit((n % 10) as nat)));
        }
    }
}

/// A number in decimal notation.
pub fn dec_u64(n: u64) -> (s: String)
    ensures
        s@ == dec(n as nat),
{
    let mut s = String::new();
    push_dec(&mut s, n);
    proof {
        assert(Seq::<char>::empty() + dec(n as nat) =~= dec(n as nat));
    }
    s
}

/// An integer in decimal notation.
pub fn dec_i64(n: i64) -> (s: String)
    ensures
        s@ == dec_int(n as int),
{
    let mut s = String::new();
    if n < 0 {
        s.push('-');
        let m: u64 = (-(n as i128)) as u64;
        push_dec(&mut s, m);
        proof {
            assert(s@ =~= seq!['-'] + dec((-n) as nat));
        }
    } else {
        push_dec(&mut s, n as u64);
        proof {
            assert(s@ =~= dec(n as nat));
        }
    }
    s
}

/// Whether `part` stands in the characters from position `i` on.
pub fn matches_at(chars: &[char], part: &[char], i: usize) -> (r: bool)
    requires
        i <= chars.len(),
    ensures
        r == starts_with(chars@.skip(i as int), part@),
        r == occurs_at(chars@, part@, i as int),
{
    let ghost rest = chars@.skip(i as int);
    if chars.len() - i < part.len() {
        return false;
    }
    let mut j: usize = 0;
    while j < part.len()
        invariant
            j <= part.len(),
            i + part.len() <= chars.len(),
            rest == chars@.skip(i as int),
            forall|k: int| 0 <= k < j ==> chars@[i + k] == #[trigger] part@[k],
        decreases part.len() - j,
    {
        if chars[i + j] != part[j] {
            proof {
                assert(rest.take(part@.len() as int)[j as int] != part@[j as int]);
                assert(chars@.subrange(i as int, i + part@.len())[j as int] != part@[j as int]);
            }
            return false;
        }
        j += 1;
    }
    proof {
        assert(rest.take(part@.len() as int) =~= part@);
        assert(chars@.subrange(i as int, i + part@.len()) =~= part@);
    }
    true
}

/// Whether a text starts with another.
pub fn has_prefix(text: &str, prefix: &str) -> (r: bool)
    ensures
        r == starts_with(text@, prefix@),
{
    let chars = chars_of(text);
    let part = chars_of(prefix);
    proof {
        assert(text@.skip(0) =~= text@);
    }
    matches_at(chars.as_slice(), part.as_slice(), 0)
}

/// What follows `prefix` in a text that starts with it.
pub fn without_prefix(text: &str, prefix: &str) -> (r: Option<String>)
    ensures
        match r {
            Some(rest) => starts_with(text@, prefix@) && rest@ == text@.skip(prefix@.len() as int),
            None => !starts_with(text@, prefix@),
        },
{
    let chars = chars_of(text);
    let part = chars_of(prefix);
    proof {
        assert(text@.skip(0) =~= text@);
    }
    if matches_at(chars.as_slice(), part.as_slice(), 0) {
        let rest = slice_string(chars.as_slice(), part.len(), chars.len());
        proof {
            assert(rest@ =~= text@.skip(prefix@.len() as int));
        }
        Some(rest)
    } else {
        None
    }
}

/// Whether a text ends with another.
pub fn has_suffix(text: &str, suffix: &str) -> (r: bool)
    ensures
        r == ends_with(text@, suffix@),
{
    let chars = chars_of(text);
    let part = chars_of(suffix);
    if chars.len() < part.len() {
        return false;
    }
    let at: usize = chars.len() - part.len();
    proof {
        assert(text@.skip(at as int).take(part@.len() as int) =~= text@.skip(at as int));
    }
    matches_at(chars.as_slice(), part.as_slice(), at)
}

/// Whether a text stands somewhere in another.
pub fn has_part(text: &str, part: &str) -> (r: bool)
    ensures
        r == contains(text@, part@),
{
    let chars = chars_of(text);
    let sought = chars_of(part);
    let mut i: usize = 0;
    while i <= chars.len() && sought.len() <= chars.len() - i
        invariant
            chars@ == text@,
            sought@ == part@,
            i <= chars.len() + 1,
            forall|k: int| 0 <= k < i ==> !occurs_at(text@, part@, k),
        decreases chars.len() + 1 - i,
    {
        if matches_at(chars.as_slice(), sought.as_slice(), i) {
            return true;
        }
        if i == chars.len() {
            return false;
        }
        i += 1;
    }
    false
}

/// A text with every occurrence of `from` replaced by `to`.
pub fn replace_all(text: &str, from: &str, to: &str) -> (r: String)
    requires
        from@.len() > 0,
    ensures
        r@ == replace(text@, from@, to@),
{
    let chars = chars_of(text);
    let sought = chars_of(from);
    let mut r = String::new();
    let mut i: usize = 0;
    proof {
        assert(text@.skip(0) =~= text@);
        assert(r@ + replace(text@, from@, to@) =~= replace(text@, from@, to@));
    }
    while sought.len() <= chars.len() - i
        invariant
            chars@ == text@,
            sought@ == from@,
            from@.len() > 0,
            i <= chars.len(),
            r@ + replace(text@.skip(i as int), from@, to@) == replace(text@, from@, to@),
        decreases chars.len() - i,
    {
        let ghost rest = text@.skip(i as int);
        let ghost done = r@;
        if matches_at(chars.as_slice(), sought.as_slice(), i) {
            r.append(to);
            i += sought.len();
            proof {
                assert(rest.skip(from@.len() as int) =~= text@.skip(i as int));
                let tail = replace(text@.skip(i as int), from@, to@);
                assert(done + (to@ + tail) =~= r@ + tail);
            }
        } else {
            r.push(chars[i]);
            i += 1;
            proof {
                assert(rest.skip(1) =~= text@.skip(i as int));
                let tail = replace(text@.skip(i as int), from@, to@);
                assert(done + (seq![rest[0]] + tail) =~= r@ + tail);
            }
        }
    }
    let last = slice_string(chars.as_slice(), i, chars.len());
    proof {
        assert(last@ =~= text@.skip(i as int));
    }
    r.append(last.as_str());
    r
}

/// Whether a character is white space.
pub fn is_space_char(c: char) -> (r: bool)
    ensures
        r == is_space(c),
{
    let n: u32 = c as u32;
    (0x9 <= n && n <= 0xD) || n == 0x20 || n == 0x85 || n == 0xA0 || n == 0x1680 || (0x2000 <= n
        && n <= 0x200A) || n == 0x2028 || n == 0x2029 || n == 0x202F || n == 0x205F || n == 0x3000
}

/// The position behind the white space at the start.
fn space_end(chars: &[char]) -> (i: usize)
    ensures
        i <= chars.len(),
        trim_start(chars@) == chars@.skip(i as int),
        i < chars.len() ==> !is_space(chars@[i as int]),
{
    let mut i: usize = 0;
    proof {
        assert(chars@.skip(0) =~= chars@);
    }
    while i < chars.len() && is_space_char(chars[i])
        invariant
            i <= chars.len(),
            trim_start(chars@) == trim_start(chars@.skip(i as int)),
        decreases chars.len() - i,
    {
        proof {
            assert(chars@.skip(i as int).skip(1) =~= chars@.skip(i + 1));
        }
        i += 1;
    }
    i
}

/// A text without white space at its ends.
pub fn trimmed(text: &str) -> (r: String)
    ensures
        r@ == trim(text@),
{
    let chars = chars_of(text);
    let from: usize = space_end(chars.as_slice());
    let mut to: usize = chars.len();
    let ghost start = trim_start(text@);
    proof {
        assert(chars@.subrange(from as int, to as int) =~= start);
    }
    while from < to && is_space_char(chars[to - 1])
        invariant
            chars@ == text@,
            from <= to <= chars.len(),
            trim_end(start) == trim_end(chars@.subrange(from as int, to as int)),
        decreases to - from,
    {
        proof {
            let now = chars@.subrange(from as int, to as int);
            assert(now.last() == chars@[to - 1]);
            assert(now.drop_last() =~= chars@.subrange(from as int, to - 1));
        }
        to -= 1;
    }
    proof {
        let now = chars@.subrange(from as int, to as int);
        if from < to {
            assert(now.last() == chars@[to - 1]);
        }
    }
    slice_string(chars.as_slice(), from, to)
}

/// The first word of a text, empty where it has none.
pub fn first_word_of(text: &str) -> (r: String)
    ensures
        r@ == first_word(text@),
{
    let chars = chars_of(text);
    let from: usize = space_end(chars.as_slice());
    let mut to: usize = from;
    let mut r = String::new();
    proof {
        assert(r@ + word_start(chars@.skip(from as int)) =~= first_word(text@));
    }
    while to < chars.len() && !is_space_char(chars[to])
        invariant
            chars@ == text@,
            to <= chars.len(),
            r@ + word_start(chars@.skip(to as int)) == first_word(text@),
        decreases chars.len() - to,
    {
        let ghost rest = chars@.skip(to as int);
        let ghost done = r@;
        r.push(chars[to]);
        to += 1;
        proof {
            assert(rest.skip(1) =~= chars@.skip(to as int));
            let tail = word_start(rest.skip(1));
            assert(done + (seq![rest[0]] + tail) =~= r@ + tail);
        }
    }
    proof {
        assert(word_start(chars@.skip(to as int)) =~= Seq::<char>::empty());
        assert(r@ + Seq::<char>::empty() =~= r@);
    }
    r
}

/// The number of bytes that a text takes.
pub fn len_in_bytes(text: &str) -> (r: usize)
    ensures
        r == byte_len(text@),
{
    text.as_bytes().len()
}

/// Appends `n` copies of a character.
pub fn push_repeated(out: &mut String, c: char, n: usize)
    ensures
        final(out)@ == old(out)@ + repeat(c, n as nat),
{
    let mut i: usize = 0;
    while i < n
        invariant
            i <= n,
            out@ == old(out)@ + repeat(c, i as nat),
        decreases n - i,
    {
        out.push(c);
        proof {
            assert(repeat(c, i as nat).push(c) =~= repeat(c, (i + 1) as nat));
            assert(out@ =~= old(out)@ + repeat(c, (i + 1) as nat));
        }
        i += 1;
    }
}

/// A text with spaces behind it up to `width` characters.
pub fn padded_right(text: &str, width: usize) -> (r: String)
    ensures
        r@ == pad_right(text@, width as nat),
{
    let n: usize = text.unicode_len();
    let mut r = text.to_owned();
    if n < width {
        push_repeated(&mut r, ' ', width - n);
    }
    r
}

/// A text with zeros before it up to `width` characters.
pub fn zero_padded(text: &str, width: usize) -> (r: String)
    ensures
        r@ == zero_pad(text@, width as nat),
{
    let n: usize = text.unicode_len();
    let mut r = String::new();
    if n < width {
        push_repeated(&mut r, '0', width - n);
    }
    r.append(text);
    proof {
        if n < width {
            assert(r@ =~= repeat('0', (width - n) as nat) + text@);
        } else {
            assert(r@ =~= text@);
        }
    }
    r
}

/// `a` followed by `b`.
pub fn concat2(a: &str, b: &str) -> (r: String)
    ensures
        r@ == a@ + b@,
{
    let mut r = a.to_owned();
    r.append(b);
    r
}

/// `a`, `b` and `c` one after the other.
pub fn concat3(a: &str, b: &str, c: &str) -> (r: String)
    ensures
        r@ == a@ + b@ + c@,
{
    let mut r = a.to_owned();
    r.append(b);
    r.append(c);
    r
}

// ---------------------------------------------------------------------------
// Splitting
// ---------------------------------------------------------------------------

/// The parts of `text` between the separators; there is always one part more
/// than separators.
pub open spec fn split(text: Seq<char>, sep: char) -> Seq<Seq<char>>
    decreases text.len(),
{
    if text.len() == 0 {
        seq![Seq::empty()]
    } else {
        let before = split(text.drop_last(), sep);
        if text.last() == sep {
            before.push(Seq::empty())
        } else {
            before.drop_last().push(before.last().push(text.last()))
        }
    }
}

pub proof fn lemma_split_is_not_empty(text: Seq<char>, sep: char)
    ensures
        split(text, sep).len() > 0,
    decreases text.len(),
{
    if text.len() > 0 {
        lemma_split_is_not_empty(text.drop_last(), sep);
    }
}

/// Splits a text at a character.
pub fn split_at_char(text: &str, sep: char) -> (r: Vec<String>)
    ensures
        views(r@) == split(text@, sep),
        r@.len() > 0,
{
    let chars = chars_of(text);
    let mut parts: Vec<String> = Vec::new();
    let mut current = String::new();
    let mut i: usize = 0;
    proof {
        assert(views(parts@).push(current@) =~= split(text@.take(0), sep));
    }
    while i < chars.len()
        invariant
            i <= chars.len(),
            chars@ == text@,
            views(parts@).push(current@) == split(text@.take(i as int), sep),
        decreases chars.len() - i,
    {
        let ghost before = split(text@.take(i as int), sep);
        let ghost old_parts = parts@;
        let ghost old_current = current@;
        proof {
            assert(text@.take(i + 1).drop_last() =~= text@.take(i as int));
            assert(text@.take(i + 1).last() == text@[i as int]);
            assert(before.drop_last() =~= views(old_parts));
            assert(before.last() == old_current);
        }
        if chars[i] == sep {
            parts.push(current);
            current = String::new();
            proof {
                assert(views(parts@) =~= before);
                assert(views(parts@).push(current@) =~= before.push(Seq::empty()));
            }
        } else {
            current.push(chars[i]);
            proof {
                assert(views(parts@).push(current@) =~= before.drop_last().push(
                    before.last().push(text@[i as int]),
                ));
            }
        }
        i += 1;
    }
    let ghost all = parts@;
    parts.push(current);
    proof {
        assert(text@.take(i as int) =~= text@);
        assert(views(parts@) =~= views(all).push(current@));
    }
    parts
}

/// A line without the carriage return before its line feed.
pub open spec fn without_return(line: Seq<char>) -> Seq<char> {
    if line.len() > 0 && line.last() == '\r' {
        line.drop_last()
    } else {
        line
    }
}

/// The lines of a text. A line ends with a line feed, with or without a
/// carriage return before it; the last line may have no end.
pub open spec fn lines(text: Seq<char>) -> Seq<Seq<char>> {
    let parts = split(text, '\n');
    let ended = Seq::new(
        (parts.len() - 1) as nat,
        |i: int| without_return(parts[i]),
    );
    if parts.last().len() == 0 {
        ended
    } else {
        ended.push(parts.last())
    }
}

/// Cuts a text into its lines.
pub fn lines_of(text: &str) -> (r: Vec<String>)
    ensures
        views(r@) == lines(text@),
{
    let parts = split_at_char(text, '\n');
    let ghost all = split(text@, '\n');
    let last: usize = parts.len() - 1;
    let mut r: Vec<String> = Vec::new();
    let mut i: usize = 0;
    while i < last
        invariant
            i <= last < parts@.len(),
            views(parts@) == all,
            r@.len() == i,
            forall|j: int| 0 <= j < i ==> (#[trigger] r@[j])@ == without_return(all[j]),
        decreases last - i,
    {
        let chars = chars_of(parts[i].as_str());
        proof {
            assert(chars@ == all[i as int]);
        }
        if chars.len() > 0 && chars[chars.len() - 1] == '\r' {
            let line = slice_string(chars.as_slice(), 0, chars.len() - 1);
            proof {
                assert(line@ =~= without_return(all[i as int]));
            }
            r.push(line);
        } else {
            r.push(parts[i].clone());
        }
        i += 1;
    }
    proof {
        assert(all.last() == parts@[last as int]@);
        assert(all.len() == parts@.len());
    }
    if !parts[last].as_str().is_empty() {
        r.push(parts[last].clone());
    }
    proof {
        assert(views(r@) =~= lines(text@));
    }
    r
}

/// Lines one after the other, each with a line feed behind it.
pub open spec fn unlines(lines: Seq<Seq<char>>) -> Seq<char>
    decreases lines.len(),
{
    if lines.len() == 0 {
        Seq::empty()
    } else {
        unlines(lines.drop_last()) + lines.last() + "\n"@
    }
}

/// A text without separators only makes the last part longer.
proof fn lemma_split_longer(text: Seq<char>, more: Seq<char>, sep: char)
    requires
        !more.contains(sep),
    ensures
        split(text + more, sep) == split(text, sep).drop_last().push(
            split(text, sep).last() + more,
        ),
    decreases more.len(),
{
    lemma_split_is_not_empty(text, sep);
    let parts = split(text, sep);
    if more.len() == 0 {
        assert(text + more =~= text);
        assert(parts.last() + more =~= parts.last());
        assert(parts.drop_last().push(parts.last()) =~= parts);
    } else {
        let c = more.last();
        assert(more[more.len() - 1] == c);
        let less = more.drop_last();
        assert forall|i: int| 0 <= i < less.len() implies less[i] != sep by {
            assert(more[i] == less[i]);
            assert(more.contains(more[i]));
        }
        assert(more.contains(c));
        lemma_split_longer(text, less, sep);
        assert((text + more).drop_last() =~= text + less);
        let before = split(text + less, sep);
        assert(before.drop_last() =~= parts.drop_last());
        assert((parts.last() + less).push(c) =~= parts.last() + more);
    }
}

/// What `unlines` puts together, splitting takes apart.
proof fn lemma_split_unlines(all: Seq<Seq<char>>)
    requires
        forall|i: int| 0 <= i < all.len() ==> !(#[trigger] all[i]).contains('\n'),
    ensures
        split(unlines(all), '\n') == all.push(Seq::empty()),
    decreases all.len(),
{
    reveal_strlit("\n");
    if all.len() == 0 {
        assert(split(unlines(all), '\n') =~= all.push(Seq::empty()));
    } else {
        let rest = all.drop_last();
        assert forall|i: int| 0 <= i < rest.len() implies !(#[trigger] rest[i]).contains('\n') by {
            assert(rest[i] == all[i]);
        }
        lemma_split_unlines(rest);
        let before = unlines(rest);
        let line = all.last();
        assert(!all[all.len() - 1].contains('\n'));
        lemma_split_longer(before, line, '\n');
        assert(split(before, '\n').drop_last() =~= rest);
        assert(Seq::<char>::empty() + line =~= line);
        let whole = before + line + "\n"@;
        assert(whole.drop_last() =~= before + line);
        assert(whole.last() == '\n');
        assert(rest.push(line) =~= all);
    }
}

/// Lines written one after the other are read back as they were.
pub proof fn law_lines_are_read_back(all: Seq<Seq<char>>)
    requires
        forall|i: int|
            0 <= i < all.len() ==> {
                let line = #[trigger] all[i];
                !line.contains('\n') && (line.len() == 0 || line.last() != '\r')
            },
    ensures
        lines(unlines(all)) == all,
{
    assert forall|i: int| 0 <= i < all.len() implies !(#[trigger] all[i]).contains('\n') by {}
    lemma_split_unlines(all);
    assert(lines(unlines(all)) =~= all);
}

/// The first position at which `part` stands.
pub open spec fn find(text: Seq<char>, part: Seq<char>) -> Option<int> {
    if contains(text, part) {
        Some(first_at(text, part, 0))
    } else {
        None
    }
}

/// The first position from `i` on at which `part` stands.
pub open spec fn first_at(text: Seq<char>, part: Seq<char>, i: int) -> int
    decreases text.len() - i,
{
    if i >= text.len() || occurs_at(text, part, i) {
        i
    } else {
        first_at(text, part, i + 1)
    }
}

/// Finds the first position at which a text stands in another.
pub fn find_part(text: &[char], part: &[char]) -> (r: Option<usize>)
    requires
        part@.len() > 0,
    ensures
        match r {
            Some(i) => find(text@, part@) == Some(i as int) && i + part@.len() <= text@.len(),
            None => find(text@, part@) is None,
        },
{
    let mut i: usize = 0;
    while i < text.len()
        invariant
            i <= text.len(),
            part@.len() > 0,
            first_at(text@, part@, 0) == first_at(text@, part@, i as int),
            forall|k: int| 0 <= k < i ==> !occurs_at(text@, part@, k),
        decreases text.len() - i,
    {
        if matches_at(text, part, i) {
            return Some(i);
        }
        i += 1;
    }
    None
}

// ---------------------------------------------------------------------------
// Reading numbers
// ---------------------------------------------------------------------------

pub open spec fn is_digit(c: char) -> bool {
    '0' <= c <= '9'
}

/// The number that decimal digits stand for.
pub open spec fn value(digits: Seq<char>) -> nat
    decreases digits.len(),
{
    if digits.len() == 0 {
        0
    } else {
        10 * value(digits.drop_last()) + (digits.last() as nat - 48) as nat
    }
}

pub open spec fn all_digits(text: Seq<char>) -> bool {
    forall|i: int| 0 <= i < text.len() ==> is_digit(#[trigger] text[i])
}

/// The number that a text stands for: digits, with or without a plus sign
/// before them, and no more than `max`.
pub open spec fn parsed(text: Seq<char>, max: nat) -> Option<nat> {
    let digits = if text.len() > 0 && text[0] == '+' {
        text.skip(1)
    } else {
        text
    };
    if digits.len() > 0 && all_digits(digits) && value(digits) <= max {
        Some(value(digits))
    } else {
        None
    }
}

proof fn lemma_value_grows(digits: Seq<char>, n: int)
    requires
        0 <= n <= digits.len(),
    ensures
        value(digits.take(n)) <= value(digits),
    decreases digits.len() - n,
{
    if n == digits.len() {
        assert(digits.take(n) =~= digits);
    } else {
        assert(digits.take(n + 1).drop_last() =~= digits.take(n));
        lemma_value_grows(digits, n + 1);
    }
}

/// Reads a number of at most `max`.
pub fn parse_number(text: &str, max: u64) -> (r: Option<u64>)
    ensures
        match r {
            Some(n) => parsed(text@, max as nat) == Some(n as nat),
            None => parsed(text@, max as nat) is None,
        },
{
    let chars = chars_of(text);
    let start: usize = if chars.len() > 0 && chars[0] == '+' {
        1
    } else {
        0
    };
    let ghost digits = text@.skip(start as int);
    proof {
        if start == 0 {
            assert(digits =~= text@);
        }
    }
    if start == chars.len() {
        return None;
    }
    let mut n: u64 = 0;
    let mut i: usize = start;
    proof {
        assert(digits.take(0) =~= Seq::<char>::empty());
    }
    while i < chars.len()
        invariant
            start <= i <= chars.len(),
            chars@ == text@,
            digits == text@.skip(start as int),
            digits.len() > 0,
            parsed(text@, max as nat) == (if all_digits(digits) && value(digits) <= max {
                Some(value(digits))
            } else {
                None
            }),
            n == value(digits.take(i - start)),
            n <= max,
            forall|j: int| 0 <= j < i - start ==> is_digit(#[trigger] digits[j]),
        decreases chars.len() - i,
    {
        let c = chars[i];
        proof {
            assert(digits[i - start] == c);
            assert(digits.take(i - start + 1).drop_last() =~= digits.take(i - start));
            assert(digits.take(i - start + 1).last() == c);
        }
        if c < '0' || '9' < c {
            return None;
        }
        let d: u64 = (c as u32 - 48) as u64;
        let next: u128 = 10 * (n as u128) + (d as u128);
        if next > max as u128 {
            proof {
                lemma_value_grows(digits, i - start + 1);
            }
            return None;
        }
        n = next as u64;
        i += 1;
    }
    proof {
        assert(digits.take(i - start) =~= digits);
    }
    Some(n)
}

/// A number is read back from its decimal notation.
pub proof fn law_decimal_is_read_back(n: nat, max: nat)
    requires
        n <= max,
    ensures
        parsed(dec(n), max) == Some(n),
{
    lemma_dec_digits(n);
    assert(dec(n)[0] != '+') by {
        assert(is_digit(dec(n)[0]));
    }
}

proof fn lemma_dec_digits(n: nat)
    ensures
        dec(n).len() > 0,
        all_digits(dec(n)),
        value(dec(n)) == n,
    decreases n,
{
    if n < 10 {
        let d = dec(n);
        assert(d.drop_last() =~= Seq::<char>::empty());
        assert(value(d.drop_last()) == 0);
        assert(d.last() as nat == 48 + n);
    } else {
        lemma_dec_digits(n / 10);
        let d = dec(n);
        assert(d.drop_last() =~= dec(n / 10));
        assert(d.last() as nat == 48 + n % 10);
    }
}

/// The decimal notation of a number has digits, and a minus sign where it is negative.
pub proof fn lemma_numbers_hold_no_braces(n: int)
    ensures
        !dec_int(n).contains('{'),
        !dec_int(n).contains('}'),
        n >= 0 ==> dec_int(n) == dec(n as nat),
{
    let digits = if n < 0 {
        dec((-n) as nat)
    } else {
        dec(n as nat)
    };
    lemma_dec_digits(if n < 0 {
        (-n) as nat
    } else {
        n as nat
    });
    let all = dec_int(n);
    assert forall|i: int| 0 <= i < all.len() implies all[i] != '{' && all[i] != '}' by {
        if n < 0 {
            if i > 0 {
                assert(all[i] == digits[i - 1]);
            }
        } else {
            assert(all[i] == digits[i]);
        }
    }
}

/// A text without a separator is its own only part, and behind a separator it is the
/// last part.
pub proof fn law_last_part_is_behind_the_last_separator(
    text: Seq<char>,
    last: Seq<char>,
    sep: char,
)
    requires
        !last.contains(sep),
    ensures
        split(last, sep) == seq![last],
        split(text.push(sep) + last, sep) == split(text, sep).push(last),
{
    let none = Seq::<char>::empty();
    lemma_split_longer(none, last, sep);
    assert(none + last =~= last);
    assert(split(none, sep) =~= seq![none]);
    assert(split(none, sep).drop_last().push(none + last) =~= seq![last]);
    lemma_split_longer(text.push(sep), last, sep);
    assert(text.push(sep).drop_last() =~= text);
    assert(split(text.push(sep), sep) =~= split(text, sep).push(none));
    assert(split(text, sep).push(none).drop_last() =~= split(text, sep));
}

/// What comes behind a separator leaves the parts before it as they are.
pub proof fn law_parts_before_a_separator_stay(text: Seq<char>, more: Seq<char>, sep: char)
    ensures
        split(text.push(sep) + more, sep) == split(text, sep) + split(more, sep),
    decreases more.len(),
{
    let parts = split(text, sep);
    if more.len() == 0 {
        assert(text.push(sep) + more =~= text.push(sep));
        assert(text.push(sep).drop_last() =~= text);
        assert(parts.push(Seq::empty()) =~= parts + split(more, sep));
    } else {
        let less = more.drop_last();
        law_parts_before_a_separator_stay(text, less, sep);
        lemma_split_is_not_empty(less, sep);
        let all = text.push(sep) + more;
        assert(all.drop_last() =~= text.push(sep) + less);
        let before = parts + split(less, sep);
        assert(before.last() == split(less, sep).last());
        assert(before.drop_last() =~= parts + split(less, sep).drop_last());
        assert(split(all, sep) =~= parts + split(more, sep));
    }
}

/// What is found is the first place: the part stands there and nowhere before.
pub proof fn law_first_place_is_found(text: Seq<char>, part: Seq<char>, at: int)
    requires
        part.len() > 0,
        0 <= at,
        at + part.len() <= text.len(),
        text.subrange(at, at + part.len()) == part,
        forall|i: int|
            0 <= i < at ==> #[trigger] text.subrange(i, i + part.len()) != part,
    ensures
        find(text, part) == Some(at),
{
    assert(occurs_at(text, part, at));
    lemma_first_at(text, part, at, 0);
}

proof fn lemma_first_at(text: Seq<char>, part: Seq<char>, at: int, i: int)
    requires
        part.len() > 0,
        0 <= i <= at,
        at + part.len() <= text.len(),
        occurs_at(text, part, at),
        forall|k: int|
            0 <= k < at ==> #[trigger] text.subrange(k, k + part.len()) != part,
    ensures
        first_at(text, part, i) == at,
    decreases at - i,
{
    if i < at {
        assert(text.subrange(i, i + part.len()) != part);
        lemma_first_at(text, part, at, i + 1);
    }
}

/// A number is written with digits, one at least.
pub proof fn lemma_dec_is_not_empty(n: nat)
    ensures
        dec(n).len() > 0,
        all_digits(dec(n)),
{
    lemma_dec_digits(n);
}

/// Padding keeps a text and fills it up with blanks behind it, or with zeros before it,
/// to the width; what is wide enough stays as it is.
pub proof fn law_padding_fills_up_to_the_width(text: Seq<char>, width: nat)
    ensures
        text.len() >= width ==> pad_right(text, width) == text && zero_pad(text, width) == text,
        text.len() < width ==> {
            &&& pad_right(text, width).len() == width
            &&& pad_right(text, width).take(text.len() as int) == text
            &&& forall|i: int|
                text.len() <= i < width ==> #[trigger] pad_right(text, width)[i] == ' '
            &&& zero_pad(text, width).len() == width
            &&& zero_pad(text, width).skip(width - text.len()) == text
            &&& forall|i: int|
                0 <= i < width - text.len() ==> #[trigger] zero_pad(text, width)[i] == '0'
        },
{
    if text.len() < width {
        assert(pad_right(text, width).take(text.len() as int) =~= text);
        assert(zero_pad(text, width).skip(width - text.len()) =~= text);
    }
}

/// Joined texts stand one behind the other with the separator between each two of them,
/// and nowhere else.
pub proof fn law_separators_stand_between_parts(
    parts: Seq<Seq<char>>,
    last: Seq<char>,
    sep: Seq<char>,
)
    ensures
        join(Seq::empty(), sep) == Seq::<char>::empty(),
        join(seq![last], sep) == last,
        parts.len() > 0 ==> join(parts.push(last), sep) == join(parts, sep) + sep + last,
{
    assert(parts.push(last).drop_last() =~= parts);
}

/// A line ends with a line feed, or with a carriage return and a line feed, and neither
/// belongs to it; a last line without an end counts where it is not empty.
pub proof fn law_lines_end_with_line_feeds(line: Seq<char>, rest: Seq<char>)
    requires
        !line.contains('\n'),
        line.len() == 0 || line.last() != '\r',
    ensures
        lines(line.push('\n') + rest) == seq![line] + lines(rest),
        lines(line.push('\r').push('\n') + rest) == seq![line] + lines(rest),
        lines(line) == (if line.len() == 0 {
            Seq::empty()
        } else {
            seq![line]
        }),
{
    lemma_lines_of_one(line, line, rest);
    let returned = line.push('\r');
    assert(!returned.contains('\n')) by {
        if returned.contains('\n') {
            let i = choose|i: int| 0 <= i < returned.len() && returned[i] == '\n';
            assert(line[i] == '\n');
        }
    }
    assert(returned.drop_last() =~= line);
    lemma_lines_of_one(returned, line, rest);
    law_last_part_is_behind_the_last_separator(Seq::empty(), line, '\n');
    assert(lines(line) =~= (if line.len() == 0 {
        Seq::empty()
    } else {
        seq![line]
    }));
}

proof fn lemma_lines_of_one(part: Seq<char>, line: Seq<char>, rest: Seq<char>)
    requires
        !part.contains('\n'),
        without_return(part) == line,
    ensures
        lines(part.push('\n') + rest) == seq![line] + lines(rest),
{
    law_parts_before_a_separator_stay(part, rest, '\n');
    law_last_part_is_behind_the_last_separator(Seq::empty(), part, '\n');
    lemma_split_is_not_empty(rest, '\n');
    let all = part.push('\n') + rest;
    let parts = split(all, '\n');
    let others = split(rest, '\n');
    assert(parts =~= seq![part] + others);
    assert(parts.last() == others.last());
    assert(lines(all) =~= seq![line] + lines(rest));
}

} // verus!
