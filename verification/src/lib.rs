//! Soundex phonetic codes.
//!
//! A Soundex code is a 4-character key — one uppercase letter followed by
//! three digits in `'0'..='6'` — that groups words of similar pronunciation.
//! The encoder is a pure function built from four stages: lowercase the input
//! and drop vowels, `h` and `w` after the leading character; map the remaining
//! consonants to phonetic class digits, carrying the leading character through
//! as an uppercase letter; collapse consecutive equal characters; and truncate
//! or zero-pad to exactly four characters.

use vstd::prelude::*;
use vstd::string::StrSliceExecFns;

verus! {

/// A character elided after the leading one: a vowel, `h` or `w`.
pub open spec fn is_elided(c: char) -> bool {
    c == 'a' || c == 'e' || c == 'h' || c == 'i' || c == 'o' || c == 'u' || c == 'w'
}

/// ASCII-lowercases a single character; anything outside `'A'..='Z'` is unchanged.
pub open spec fn lower_char(c: char) -> char {
    if 'A' <= c && c <= 'Z' {
        ((c as u32 + 32) as u32) as char
    } else {
        c
    }
}

/// ASCII-uppercases a single character; anything outside `'a'..='z'` is unchanged.
pub open spec fn upper_char(c: char) -> char {
    if 'a' <= c && c <= 'z' {
        ((c as u32 - 32) as u32) as char
    } else {
        c
    }
}

/// The phonetic class digit of a lowercase character; `'0'` marks "no class".
pub open spec fn digit_of(c: char) -> char {
    if c == 'b' || c == 'f' || c == 'p' || c == 'v' {
        '1'
    } else if c == 'c' || c == 'g' || c == 'j' || c == 'k' || c == 'q' || c == 's' || c == 'x'
        || c == 'z' {
        '2'
    } else if c == 'd' || c == 't' {
        '3'
    } else if c == 'l' {
        '4'
    } else if c == 'm' || c == 'n' {
        '5'
    } else if c == 'r' {
        '6'
    } else {
        '0'
    }
}

/// Pointwise ASCII lowercasing of a sequence.
pub open spec fn lower_seq(s: Seq<char>) -> Seq<char> {
    s.map_values(|c: char| lower_char(c))
}

/// Pointwise ASCII uppercasing of a sequence.
pub open spec fn upper_seq(s: Seq<char>) -> Seq<char> {
    s.map_values(|c: char| upper_char(c))
}

/// Stage 1 on an already-lowercased sequence: the leading character is kept
/// unconditionally, and every later vowel, `h` and `w` is removed.
pub open spec fn normalize(s: Seq<char>) -> Seq<char> {
    if s.len() == 0 {
        Seq::empty()
    } else {
        seq![s[0]] + s.skip(1).filter(|c: char| !is_elided(c))
    }
}

/// Stage 2: the leading character becomes an uppercase letter marker and every
/// later character is replaced by its phonetic class digit.
pub open spec fn to_digits(s: Seq<char>) -> Seq<char> {
    if s.len() == 0 {
        Seq::empty()
    } else {
        seq![upper_char(s[0])] + s.skip(1).map_values(|c: char| digit_of(c))
    }
}

/// Stage 3: a character is kept exactly when it differs from its predecessor,
/// which collapses every run of consecutive equal characters to one.
pub open spec fn fold_dups(s: Seq<char>) -> Seq<char>
    decreases s.len(),
{
    if s.len() <= 1 {
        s
    } else if s[s.len() - 1] == s[s.len() - 2] {
        fold_dups(s.drop_last())
    } else {
        fold_dups(s.drop_last()).push(s.last())
    }
}

/// Stage 4: truncate past the fourth character, or right-pad with `'0'` up to
/// length four.
pub open spec fn pad4(s: Seq<char>) -> Seq<char> {
    if s.len() >= 4 {
        s.take(4)
    } else {
        s + Seq::new((4 - s.len()) as nat, |i: int| '0')
    }
}

/// The whole pipeline: lowercase, elide, map to digits, fold, pad.
pub open spec fn soundex_spec(s: Seq<char>) -> Seq<char> {
    pad4(fold_dups(to_digits(normalize(lower_seq(s)))))
}

/// An ASCII letter, in either case.
pub open spec fn is_ascii_letter(c: char) -> bool {
    ('A' <= c && c <= 'Z') || ('a' <= c && c <= 'z')
}

/// Every Soundex code has exactly four characters, whatever the input.
pub proof fn lemma_soundex_len(s: Seq<char>)
    ensures
        soundex_spec(s).len() == 4,
{
}

/// The code is a function of the input alone: any two results of encoding the
/// same input are equal.
pub proof fn lemma_soundex_deterministic(s: Seq<char>, code1: Seq<char>, code2: Seq<char>)
    requires
        code1 == soundex_spec(s),
        code2 == soundex_spec(s),
    ensures
        code1 == code2,
{
}

/// ASCII case changes wash out in the pipeline's own lowercasing.
proof fn lemma_lower_char_absorbs(c: char)
    ensures
        lower_char(lower_char(c)) == lower_char(c),
        lower_char(upper_char(c)) == lower_char(c),
{
}

/// The code ignores ASCII case: uppercasing or lowercasing the whole input
/// leaves it unchanged.
pub proof fn lemma_soundex_case_insensitive(s: Seq<char>)
    ensures
        soundex_spec(upper_seq(s)) == soundex_spec(s),
        soundex_spec(lower_seq(s)) == soundex_spec(s),
{
    assert forall|i: int| 0 <= i < s.len() implies lower_char(upper_char(s[i])) == lower_char(
        s[i],
    ) && lower_char(lower_char(s[i])) == lower_char(s[i]) by {
        lemma_lower_char_absorbs(s[i]);
    }
    assert(lower_seq(upper_seq(s)) =~= lower_seq(s));
    assert(lower_seq(lower_seq(s)) =~= lower_seq(s));
}

/// Folding keeps the leading character and loses no property that every later
/// character of the input had.
proof fn lemma_fold_dups_preserves(s: Seq<char>, p: spec_fn(char) -> bool)
    requires
        s.len() > 0,
        forall|i: int| 1 <= i < s.len() ==> p(#[trigger] s[i]),
    ensures
        1 <= fold_dups(s).len() <= s.len(),
        fold_dups(s)[0] == s[0],
        forall|i: int| 1 <= i < fold_dups(s).len() ==> p(#[trigger] fold_dups(s)[i]),
    decreases s.len(),
{
    if s.len() > 1 {
        assert(forall|i: int| 1 <= i < s.drop_last().len() ==> p(#[trigger] s.drop_last()[i]));
        lemma_fold_dups_preserves(s.drop_last(), p);
    }
}

/// The three trailing characters of a code are digits in `'0'..='6'`, for
/// every input.
pub proof fn lemma_soundex_digits(s: Seq<char>)
    ensures
        forall|i: int| 1 <= i < 4 ==> '0' <= #[trigger] soundex_spec(s)[i] && soundex_spec(s)[i]
            <= '6',
{
    let t = lower_seq(s);
    assert(t.len() == s.len());
    let w = normalize(t);
    let d = to_digits(w);
    let f = fold_dups(d);
    let out = pad4(f);
    if s.len() > 0 {
        assert(w.len() >= 1 && d.len() >= 1);
        assert forall|i: int| 1 <= i < d.len() implies '0' <= #[trigger] d[i] && d[i] <= '6' by {
            assert(d[i] == digit_of(w.skip(1)[i - 1]));
        }
        lemma_fold_dups_preserves(d, |c: char| '0' <= c && c <= '6');
    }
    assert forall|i: int| 1 <= i < 4 implies '0' <= #[trigger] out[i] && out[i] <= '6' by {
        if i < f.len() {
            assert(out[i] == f[i]);
        } else {
            assert(out[i] == '0');
        }
    }
}

/// When the input starts with an ASCII letter, the code is that letter in
/// uppercase followed by three digits in `'0'..='6'`. Only the leading claim
/// needs the letter: an input whose first character is no letter carries that
/// character through uppercasing unchanged.
pub proof fn lemma_soundex_format(s: Seq<char>)
    requires
        s.len() > 0,
        is_ascii_letter(s[0]),
    ensures
        'A' <= soundex_spec(s)[0] && soundex_spec(s)[0] <= 'Z',
        forall|i: int| 1 <= i < 4 ==> '0' <= #[trigger] soundex_spec(s)[i] && soundex_spec(s)[i]
            <= '6',
{
    lemma_soundex_digits(s);
    let t = lower_seq(s);
    assert(t.len() == s.len() && t[0] == lower_char(s[0]));
    let w = normalize(t);
    assert(w.len() >= 1 && w[0] == t[0]);
    let d = to_digits(w);
    assert(d.len() >= 1 && d[0] == upper_char(lower_char(s[0])));
    lemma_fold_dups_preserves(d, |c: char| '0' <= c && c <= '6');
    let f = fold_dups(d);
    let out = pad4(f);
    assert(out[0] == f[0]);
}

/// Relies on `String::push`: appends the given character to the end of the string.
pub assume_specification[ String::push ](s: &mut String, c: char)
    ensures
        final(s)@ == old(s)@.push(c),
;

/// ASCII-lowercases one character.
fn ascii_lower(c: char) -> (r: char)
    ensures
        r == lower_char(c),
{
    if 'A' <= c && c <= 'Z' {
        ((c as u8) + 32) as char
    } else {
        c
    }
}

/// ASCII-uppercases one character.
fn ascii_upper(c: char) -> (r: char)
    ensures
        r == upper_char(c),
{
    if 'a' <= c && c <= 'z' {
        ((c as u8) - 32) as char
    } else {
        c
    }
}

/// Whether a lowercased character is elided after the leading position.
fn is_elided_char(c: char) -> (r: bool)
    ensures
        r == is_elided(c),
{
    c == 'a' || c == 'e' || c == 'h' || c == 'i' || c == 'o' || c == 'u' || c == 'w'
}

/// The fixed consonant-to-digit table; every unmapped character — vowels,
/// `h`, `w`, and anything outside the lowercase ASCII letters — yields `'0'`.
pub fn consonants_digit_map(c: char) -> (d: char)
    ensures
        d == digit_of(c),
{
    match c {
        'b' | 'f' | 'p' | 'v' => '1',
        'c' | 'g' | 'j' | 'k' | 'q' | 's' | 'x' | 'z' => '2',
        'd' | 't' => '3',
        'l' => '4',
        'm' | 'n' => '5',
        'r' => '6',
        _ => '0',
    }
}

/// How one more input character moves through stages 1 and 2: the first
/// character becomes the uppercase letter marker, an elided character leaves
/// the digit sequence unchanged, and any other character appends its digit.
proof fn lemma_digits_step(t: Seq<char>, c: char)
    ensures
        t.len() == 0 ==> to_digits(normalize(t.push(c))) == seq![upper_char(c)],
        t.len() > 0 && is_elided(c) ==> to_digits(normalize(t.push(c))) == to_digits(normalize(t)),
        t.len() > 0 && !is_elided(c) ==> to_digits(normalize(t.push(c))) == to_digits(
            normalize(t),
        ).push(digit_of(c)),
{
    reveal(Seq::filter);
    let u = t.push(c);
    if t.len() == 0 {
        assert(u.skip(1) =~= Seq::<char>::empty());
        assert(normalize(u) =~= seq![c]);
        assert(to_digits(seq![c]) =~= seq![upper_char(c)]);
    } else {
        assert(u[0] == t[0]);
        assert(u.skip(1) =~= t.skip(1).push(c));
        assert(u.skip(1).drop_last() =~= t.skip(1));
        assert(u.skip(1).last() == c);
        let w = normalize(t);
        assert(w.len() >= 1 && w[0] == t[0]);
        if is_elided(c) {
            assert(normalize(u) =~= w);
        } else {
            assert(normalize(u) =~= w.push(c));
            assert(w.push(c).skip(1) =~= w.skip(1).push(c));
            assert(w.push(c).skip(1).map_values(|x: char| digit_of(x)) =~= w.skip(1).map_values(
                |x: char| digit_of(x),
            ).push(digit_of(c)));
            assert(to_digits(w.push(c)) =~= to_digits(w).push(digit_of(c)));
        }
    }
}

/// The Soundex code of `input`: one uppercase letter followed by three digits
/// in `'0'..='6'`, obtained by eliding vowels, `h` and `w` after the leading
/// character, mapping the rest to phonetic class digits, folding consecutive
/// duplicates, and truncating or zero-padding to length four.
pub fn soundex(input: &str) -> (code: String)
    ensures
        code@ == soundex_spec(input@),
        code@.len() == 4,
{
    proof {
        lemma_soundex_len(input@);
    }
    let n = input.unicode_len();
    let mut mapped = String::new();
    let mut i: usize = 0;
    while i < n
        invariant
            i <= n,
            n == input@.len(),
            mapped@ == to_digits(normalize(lower_seq(input@.take(i as int)))),
        decreases n - i,
    {
        let c = ascii_lower(input.get_char(i));
        if i == 0 {
            mapped.push(ascii_upper(c));
        } else if !is_elided_char(c) {
            mapped.push(consonants_digit_map(c));
        }
        proof {
            let t = lower_seq(input@.take(i as int));
            assert(t.len() == i);
            assert(lower_seq(input@.take(i as int + 1)) =~= t.push(lower_char(input@[i as int])));
            lemma_digits_step(t, lower_char(input@[i as int]));
            if i == 0 {
                assert(mapped@ =~= seq![upper_char(lower_char(input@[0]))]);
            }
        }
        i += 1;
    }
    proof {
        assert(input@.take(n as int) =~= input@);
    }
    let folded = fold_serial_digits(mapped);
    round_or_pad(folded)
}

/// Collapses every run of consecutive equal characters to a single occurrence:
/// a character is emitted exactly when it differs from the last character
/// already emitted, and the last character emitted so far is always the
/// previous input character, so the comparison is with the predecessor.
pub fn fold_serial_digits(code: String) -> (folded: String)
    ensures
        folded@ == fold_dups(code@),
{
    let n = code.as_str().unicode_len();
    let mut acc = String::new();
    let mut i: usize = 0;
    while i < n
        invariant
            i <= n,
            n == code@.len(),
            acc@ == fold_dups(code@.take(i as int)),
        decreases n - i,
    {
        let c = code.as_str().get_char(i);
        if i == 0 || c != code.as_str().get_char(i - 1) {
            acc.push(c);
        }
        proof {
            let grown = code@.take(i as int + 1);
            assert(grown.drop_last() =~= code@.take(i as int));
            assert(grown.last() == code@[i as int]);
            if i == 0 {
                assert(acc@ =~= grown);
            }
        }
        i += 1;
    }
    proof {
        assert(code@.take(n as int) =~= code@);
    }
    acc
}

/// Truncates past the fourth character, or right-pads with `'0'`, so that the
/// result has exactly four characters.
pub fn round_or_pad(code: String) -> (padded: String)
    ensures
        padded@ == pad4(code@),
{
    let n = code.as_str().unicode_len();
    let mut padded = String::new();
    let mut i: usize = 0;
    while i < 4
        invariant
            i <= 4,
            n == code@.len(),
            padded@ == pad4(code@).take(i as int),
        decreases 4 - i,
    {
        if i < n {
            padded.push(code.as_str().get_char(i));
        } else {
            padded.push('0');
        }
        proof {
            assert(pad4(code@).take(i as int + 1) =~= pad4(code@).take(i as int).push(
                pad4(code@)[i as int],
            ));
        }
        i += 1;
    }
    proof {
        assert(pad4(code@).take(4) =~= pad4(code@));
    }
    padded
}

} // verus!
