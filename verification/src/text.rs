//! Text as std handles it: decimal numbers as `Display` writes them for unsigned
//! integers, and Unicode whitespace as `str::trim` and `str::split_whitespace` treat it.
use vstd::prelude::*;

use crate::outside::push_char;

verus! {

/// The ASCII character of a decimal digit.
pub open spec fn digit_char(d: nat) -> char {
    ((d + 0x30) as u8) as char
}

/// `n` in decimal, most significant digit first, with no leading zeros.
pub open spec fn decimal(n: nat) -> Seq<char>
    decreases n,
{
    if n < 10 {
        seq![digit_char(n)]
    } else {
        decimal(n / 10).push(digit_char(n % 10))
    }
}

fn digit(d: u8) -> (c: char)
    requires
        d < 10,
    ensures
        c == digit_char(d as nat),
{
    (d + 0x30) as char
}

/// `n` written in decimal.
pub fn decimal_text(n: u128) -> (text: String)
    ensures
        text@ == decimal(n as nat),
    decreases n,
{
    if n < 10 {
        let mut text = String::new();
        push_char(&mut text, digit(n as u8));
        assert(text@ =~= decimal(n as nat));
        text
    } else {
        let mut text = decimal_text(n / 10);
        push_char(&mut text, digit((n % 10) as u8));
        text
    }
}

/// Appends `n` in decimal to `text`.
pub fn push_decimal(text: &mut String, n: u128)
    ensures
        final(text)@ == old(text)@ + decimal(n as nat),
{
    let digits = decimal_text(n);
    text.append(digits.as_str());
}

/// The Unicode `White_Space` property, which `char::is_whitespace` tests.
pub open spec fn is_unicode_whitespace(c: char) -> bool {
    let n = c as u32;
    ||| 0x9 <= n <= 0xd
    ||| n == 0x20
    ||| n == 0x85
    ||| n == 0xa0
    ||| n == 0x1680
    ||| 0x2000 <= n <= 0x200a
    ||| n == 0x2028
    ||| n == 0x2029
    ||| n == 0x202f
    ||| n == 0x205f
    ||| n == 0x3000
}

pub fn is_whitespace(c: char) -> (result: bool)
    ensures
        result == is_unicode_whitespace(c),
{
    let n = c as u32;
    (0x9 <= n && n <= 0xd) || n == 0x20 || n == 0x85 || n == 0xa0 || n == 0x1680 || (0x2000 <= n
        && n <= 0x200a) || n == 0x2028 || n == 0x2029 || n == 0x202f || n == 0x205f || n == 0x3000
}

/// `text` with its leading whitespace removed.
pub open spec fn trim_start(text: Seq<char>) -> Seq<char>
    decreases text.len(),
{
    if text.len() > 0 && is_unicode_whitespace(text[0]) {
        trim_start(text.drop_first())
    } else {
        text
    }
}

/// `text` with its trailing whitespace removed.
pub open spec fn trim_end(text: Seq<char>) -> Seq<char>
    decreases text.len(),
{
    if text.len() > 0 && is_unicode_whitespace(text.last()) {
        trim_end(text.drop_last())
    } else {
        text
    }
}

/// What `str::trim` leaves: leading and trailing whitespace removed.
pub open spec fn trimmed(text: Seq<char>) -> Seq<char> {
    trim_end(trim_start(text))
}

/// `text` with leading and trailing whitespace removed, as `str::trim` does.
pub fn trim_str(text: &str) -> (inner: &str)
    ensures
        inner@ == trimmed(text@),
{
    let n = text.unicode_len();
    let mut i: usize = 0;
    assert(text@.subrange(0, n as int) =~= text@);
    while i < n && is_whitespace(text.get_char(i))
        invariant
            i <= n,
            n == text@.len(),
            trim_start(text@) == trim_start(text@.subrange(i as int, n as int)),
        decreases n - i,
    {
        assert(text@.subrange(i as int, n as int).drop_first() =~= text@.subrange(
            i + 1,
            n as int,
        ));
        i = i + 1;
    }
    let ghost rest = text@.subrange(i as int, n as int);
    assert(trim_start(text@) == rest) by {
        if rest.len() > 0 {
            assert(rest[0] == text@[i as int]);
        }
    }
    let mut j: usize = n;
    while j > i && is_whitespace(text.get_char(j - 1))
        invariant
            i <= j <= n,
            n == text@.len(),
            rest == text@.subrange(i as int, n as int),
            trim_end(rest) == trim_end(text@.subrange(i as int, j as int)),
        decreases j,
    {
        assert(text@.subrange(i as int, j as int).drop_last() =~= text@.subrange(
            i as int,
            j - 1,
        ));
        j = j - 1;
    }
    assert(trim_end(rest) == text@.subrange(i as int, j as int)) by {
        let kept = text@.subrange(i as int, j as int);
        if kept.len() > 0 {
            assert(kept.last() == text@[j - 1]);
        }
    }
    text.substring_char(i, j)
}

/// The words `str::split_whitespace` yields: the maximal runs of characters that are not
/// whitespace, in order.
pub open spec fn whitespace_words(text: Seq<char>) -> Seq<Seq<char>>
    decreases text.len(),
{
    if text.len() == 0 {
        Seq::empty()
    } else {
        let before = whitespace_words(text.drop_last());
        let c = text.last();
        if is_unicode_whitespace(c) {
            before
        } else if text.len() >= 2 && !is_unicode_whitespace(text[text.len() - 2]) {
            before.drop_last().push(before.last().push(c))
        } else {
            before.push(seq![c])
        }
    }
}

/// No character of `text` is whitespace.
pub open spec fn no_whitespace(text: Seq<char>) -> bool {
    forall|i: int| 0 <= i < text.len() ==> !is_unicode_whitespace(#[trigger] text[i])
}

/// Text that ends in a character other than whitespace has at least one word.
proof fn lemma_words_nonempty(text: Seq<char>)
    requires
        text.len() > 0,
        !is_unicode_whitespace(text.last()),
    ensures
        whitespace_words(text).len() > 0,
    decreases text.len(),
{
    if text.len() >= 2 && !is_unicode_whitespace(text[text.len() - 2]) {
        let front = text.drop_last();
        assert(front.last() == text[text.len() - 2]);
        lemma_words_nonempty(front);
    }
}

/// A nonempty run of characters that are not whitespace is one word.
pub proof fn lemma_single_word(word: Seq<char>)
    requires
        word.len() > 0,
        no_whitespace(word),
    ensures
        whitespace_words(word) == seq![word],
    decreases word.len(),
{
    let c = word.last();
    assert(!is_unicode_whitespace(word[word.len() - 1]));
    if word.len() == 1 {
        assert(word.drop_last() =~= Seq::<char>::empty());
        assert(whitespace_words(word.drop_last()) == Seq::<Seq<char>>::empty());
        assert(seq![c] =~= word);
        assert(Seq::<Seq<char>>::empty().push(seq![c]) =~= seq![word]);
    } else {
        let front = word.drop_last();
        assert forall|i: int| 0 <= i < front.len() implies !is_unicode_whitespace(#[trigger] front[i]) by {
            assert(front[i] == word[i]);
        }
        lemma_single_word(front);
        assert(!is_unicode_whitespace(word[word.len() - 2]));
        assert(front.push(c) =~= word);
        assert(seq![front].drop_last().push(front.push(c)) =~= seq![word]);
    }
}

/// Words on either side of a whitespace character are split there: the words of the
/// whole are the words before it followed by the words after it.
pub proof fn lemma_words_split(a: Seq<char>, c: char, b: Seq<char>)
    requires
        is_unicode_whitespace(c),
    ensures
        whitespace_words(a + seq![c] + b) == whitespace_words(a) + whitespace_words(b),
    decreases b.len(),
{
    let x = a + seq![c] + b;
    if b.len() == 0 {
        assert(x =~= a.push(c));
        assert(x.drop_last() =~= a);
        assert(whitespace_words(a) + Seq::<Seq<char>>::empty() =~= whitespace_words(a));
    } else {
        let b1 = b.drop_last();
        let ch = b.last();
        assert(x.drop_last() =~= a + seq![c] + b1);
        assert(x.last() == ch);
        lemma_words_split(a, c, b1);
        let wa = whitespace_words(a);
        let wb1 = whitespace_words(b1);
        assert(x[x.len() - 2] == if b.len() >= 2 { b[b.len() - 2] } else { c });
        if is_unicode_whitespace(ch) {
        } else if b.len() >= 2 && !is_unicode_whitespace(b[b.len() - 2]) {
            assert(b1.last() == b[b.len() - 2]);
            lemma_words_nonempty(b1);
            assert((wa + wb1).drop_last() =~= wa + wb1.drop_last());
            assert((wa + wb1).last() == wb1.last());
            assert((wa + wb1.drop_last()).push(wb1.last().push(ch)) =~= wa + wb1.drop_last().push(
                wb1.last().push(ch),
            ));
        } else {
            if b.len() == 1 {
                assert(b1 =~= Seq::<char>::empty());
            }
            assert((wa + wb1).push(seq![ch]) =~= wa + wb1.push(seq![ch]));
        }
    }
}

/// The words of `text`, split at whitespace as `str::split_whitespace` splits.
pub fn split_words(text: &str) -> (words: Vec<String>)
    ensures
        words@.len() == whitespace_words(text@).len(),
        forall|k: int| 0 <= k < words@.len() ==> #[trigger] words@[k]@ == whitespace_words(text@)[k],
{
    let n = text.unicode_len();
    let mut words: Vec<String> = Vec::new();
    let mut in_word = false;
    let mut i: usize = 0;
    while i < n
        invariant
            i <= n,
            n == text@.len(),
            words@.len() == whitespace_words(text@.take(i as int)).len(),
            forall|k: int| 0 <= k < words@.len() ==> #[trigger] words@[k]@ == whitespace_words(
                text@.take(i as int),
            )[k],
            in_word == (i > 0 && !is_unicode_whitespace(text@[i - 1])),
            in_word ==> words@.len() > 0,
        decreases n - i,
    {
        let ghost prefix = text@.take(i + 1);
        let ghost before = whitespace_words(text@.take(i as int));
        assert(prefix.drop_last() =~= text@.take(i as int));
        let c = text.get_char(i);
        assert(prefix.last() == c);
        if is_whitespace(c) {
            in_word = false;
        } else if in_word {
            assert(prefix[prefix.len() - 2] == text@[i - 1]);
            let last_index = words.len() - 1;
            let mut last = words.pop().unwrap();
            push_char(&mut last, c);
            words.push(last);
            proof {
                let after = whitespace_words(prefix);
                assert(after == before.drop_last().push(before.last().push(c)));
                assert forall|k: int| 0 <= k < words@.len() implies #[trigger] words@[k]@ == after[k] by {
                    if k < last_index {
                        assert(after[k] == before[k]);
                    }
                }
            }
        } else {
            let mut word = String::new();
            push_char(&mut word, c);
            words.push(word);
            proof {
                let after = whitespace_words(prefix);
                if i > 0 {
                    assert(prefix[prefix.len() - 2] == text@[i - 1]);
                }
                assert(after == before.push(seq![c]));
                assert(word@ =~= seq![c]);
            }
            in_word = true;
        }
        i = i + 1;
    }
    assert(text@.take(n as int) =~= text@);
    words
}

} // verus!
