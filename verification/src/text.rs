use vstd::prelude::*;

verus! {

/// Whether `c` has the Unicode `White_Space` property: tab, line feed,
/// vertical tab, form feed, carriage return, space, next line, no-break
/// space, ogham space mark, the spaces U+2000 to U+200A, line separator,
/// paragraph separator, narrow no-break space, medium mathematical space and
/// ideographic space.
pub open spec fn unicode_white_space(c: char) -> bool {
    let n = c as u32;
    ||| 0x09 <= n <= 0x0D
    ||| n == 0x20
    ||| n == 0x85
    ||| n == 0xA0
    ||| n == 0x1680
    ||| 0x2000 <= n <= 0x200A
    ||| n == 0x2028
    ||| n == 0x2029
    ||| n == 0x202F
    ||| n == 0x205F
    ||| n == 0x3000
}

/// The lowercase form of `s`, as `str::to_lowercase` computes it (Unicode
/// lowercase mapping, character by character, with the final-sigma rule).
pub uninterp spec fn unicode_lowercase(s: Seq<char>) -> Seq<char>;

/// Whether `c` is white space (as `char::is_whitespace` decides).
pub fn is_whitespace(c: char) -> (r: bool)
    ensures
        r == unicode_white_space(c),
{
    let n = c as u32;
    (0x09 <= n && n <= 0x0D) || n == 0x20 || n == 0x85 || n == 0xA0 || n == 0x1680 || (0x2000 <= n
        && n <= 0x200A) || n == 0x2028 || n == 0x2029 || n == 0x202F || n == 0x205F || n == 0x3000
}

/// Whether every character of `s` is ASCII.
pub open spec fn all_ascii(s: Seq<char>) -> bool {
    forall|i: int| 0 <= i < s.len() ==> (#[trigger] s[i] as u32) < 128
}

/// The lowercase form of an ASCII character: `A` to `Z` become `a` to `z`,
/// every other character stays.
pub open spec fn ascii_lower(c: char) -> char {
    if 'A' <= c <= 'Z' {
        ((c as u32) + 32) as char
    } else {
        c
    }
}

/// Calls `str::to_lowercase`. Claimed: the result's characters are the
/// lowercase form of `s`, a fixed function of `s` named `unicode_lowercase`;
/// for a string of ASCII characters, that form maps `A` to `Z` to `a` to `z`
/// and keeps every other character (the Unicode lowercase mapping of the
/// ASCII range). Nothing more is stated of other characters.
#[verifier::external_body]
pub(crate) fn to_lowercase(s: &str) -> (r: String)
    ensures
        r@ == unicode_lowercase(s@),
        all_ascii(s@) ==> r@ == s@.map_values(|c: char| ascii_lower(c)),
{
    s.to_lowercase()
}

/// The state after reading the first `i` characters of `s`: the words that
/// are complete, and the characters of the word being read.
pub open spec fn scan_words(s: Seq<char>, i: int) -> (Seq<Seq<char>>, Seq<char>)
    decreases i,
{
    if i <= 0 {
        (Seq::empty(), Seq::empty())
    } else {
        let (done, cur) = scan_words(s, i - 1);
        let c = s[i - 1];
        if unicode_white_space(c) {
            if cur.len() > 0 {
                (done.push(cur), Seq::empty())
            } else {
                (done, cur)
            }
        } else {
            (done, cur.push(c))
        }
    }
}

/// The words of `s`: its maximal runs of characters that are not white
/// space, in order.
pub open spec fn split_words(s: Seq<char>) -> Seq<Seq<char>> {
    let (done, cur) = scan_words(s, s.len() as int);
    if cur.len() > 0 {
        done.push(cur)
    } else {
        done
    }
}

/// The words read so far are non-empty and hold no white space, and neither
/// does the word being read.
proof fn lemma_words_clean(s: Seq<char>, i: int)
    requires
        0 <= i <= s.len(),
    ensures
        forall|w: int|
            0 <= w < scan_words(s, i).0.len() ==> #[trigger] scan_words(s, i).0[w].len() > 0
                && forall|j: int|
                0 <= j < scan_words(s, i).0[w].len() ==> !unicode_white_space(
                    scan_words(s, i).0[w][j],
                ),
        forall|j: int|
            0 <= j < scan_words(s, i).1.len() ==> !unicode_white_space(
                #[trigger] scan_words(s, i).1[j],
            ),
    decreases i,
{
    if i > 0 {
        lemma_words_clean(s, i - 1);
        let (done, cur) = scan_words(s, i - 1);
        if !unicode_white_space(s[i - 1]) {
            assert forall|j: int| 0 <= j < cur.push(s[i - 1]).len() implies !unicode_white_space(
                #[trigger] cur.push(s[i - 1])[j],
            ) by {
                if j < cur.len() {
                    assert(cur.push(s[i - 1])[j] == cur[j]);
                }
            }
        } else if cur.len() > 0 {
            let d2 = done.push(cur);
            assert forall|w: int| 0 <= w < d2.len() implies #[trigger] d2[w].len() > 0 && forall|
                j: int,
            | 0 <= j < d2[w].len() ==> !unicode_white_space(d2[w][j]) by {
                if w < done.len() {
                    assert(d2[w] == done[w]);
                }
            }
        }
    }
}

/// Every word of a string is non-empty and holds no white space.
pub proof fn lemma_split_words_clean(s: Seq<char>)
    ensures
        forall|w: int|
            0 <= w < split_words(s).len() ==> #[trigger] split_words(s)[w].len() > 0 && forall|j: int|
                0 <= j < split_words(s)[w].len() ==> !unicode_white_space(split_words(s)[w][j]),
{
    lemma_words_clean(s, s.len() as int);
    let (done, cur) = scan_words(s, s.len() as int);
    if cur.len() > 0 {
        assert forall|w: int| 0 <= w < done.push(cur).len() implies #[trigger] done.push(cur)[w].len()
            > 0 && forall|j: int|
            0 <= j < done.push(cur)[w].len() ==> !unicode_white_space(done.push(cur)[w][j]) by {
            if w < done.len() {
                assert(done.push(cur)[w] == done[w]);
            }
        }
    }
}

/// The current word is the run of characters since the last white space.
proof fn lemma_current_word(s: Seq<char>, i: int, start: int)
    requires
        0 <= start <= i <= s.len(),
        scan_words(s, i).1 == s.subrange(start, i),
        i < s.len(),
        !unicode_white_space(s[i]),
    ensures
        scan_words(s, i + 1).1 == s.subrange(start, i + 1),
{
    assert(s.subrange(start, i).push(s[i]) =~= s.subrange(start, i + 1));
}

/// Splits `s` into its whitespace-separated words, each as a `String`.
pub fn split_whitespace(s: &str) -> (words: Vec<String>)
    ensures
        words@.len() == split_words(s@).len(),
        forall|i: int| 0 <= i < words@.len() ==> #[trigger] words@[i]@ == split_words(s@)[i],
{
    let n = s.unicode_len();
    let mut words: Vec<String> = Vec::new();
    let mut start: usize = 0;
    let mut i: usize = 0;
    while i < n
        invariant
            n == s@.len(),
            start <= i <= n,
            words@.len() == scan_words(s@, i as int).0.len(),
            forall|w: int|
                0 <= w < words@.len() ==> #[trigger] words@[w]@ == scan_words(s@, i as int).0[w],
            scan_words(s@, i as int).1 == s@.subrange(start as int, i as int),
        decreases n - i,
    {
        let c = s.get_char(i);
        if is_whitespace(c) {
            if start < i {
                let w = s.substring_char(start, i).to_owned();
                let ghost before = words@;
                words.push(w);
                proof {
                    let (done, cur) = scan_words(s@, i as int);
                    assert(cur.len() > 0);
                    assert forall|k: int| 0 <= k < words@.len() implies #[trigger] words@[k]@
                        == scan_words(s@, i + 1).0[k] by {
                        if k < done.len() {
                            assert(words@[k] == before[k]);
                        }
                    }
                }
            } else {
                proof {
                    assert(s@.subrange(start as int, i as int).len() == 0);
                }
            }
            start = i + 1;
            proof {
                assert(s@.subrange(start as int, i + 1) =~= Seq::<char>::empty());
            }
        } else {
            proof {
                lemma_current_word(s@, i as int, start as int);
            }
        }
        i = i + 1;
    }
    if start < n {
        let w = s.substring_char(start, n).to_owned();
        words.push(w);
    }
    proof {
        assert(s@.subrange(start as int, n as int).len() == n - start);
    }
    words
}

/// The value of a string of decimal digits.
pub open spec fn digits_value(s: Seq<char>) -> nat
    decreases s.len(),
{
    if s.len() == 0 {
        0
    } else {
        digits_value(s.drop_last()) * 10 + ((s.last() as int - '0' as int) as nat)
    }
}

/// Whether `c` is one of the ASCII digits `0` to `9`.
pub open spec fn is_digit(c: char) -> bool {
    '0' <= c <= '9'
}

/// The digits of a number's text: the text without a leading `+`.
pub open spec fn unsigned_digits(s: Seq<char>) -> Seq<char> {
    if s.len() > 0 && s[0] == '+' {
        s.drop_first()
    } else {
        s
    }
}

/// Whether every character is an ASCII digit.
pub open spec fn all_digits(d: Seq<char>) -> bool {
    forall|i: int| 0 <= i < d.len() ==> is_digit(#[trigger] d[i])
}

/// What `str::parse::<usize>` gives back: an optional `+` sign followed by at
/// least one ASCII digit and nothing else, whose value fits in a `usize`.
pub open spec fn parse_usize_spec(s: Seq<char>) -> Option<usize> {
    let digits = unsigned_digits(s);
    if digits.len() > 0 && all_digits(digits) && digits_value(digits) <= usize::MAX {
        Some(digits_value(digits) as usize)
    } else {
        None
    }
}

/// The value of a prefix of a string of digits is at most the value of the
/// whole.
proof fn lemma_digits_prefix(d: Seq<char>, k: int)
    requires
        0 <= k <= d.len(),
        all_digits(d),
    ensures
        digits_value(d.subrange(0, k)) <= digits_value(d),
    decreases d.len() - k,
{
    if k < d.len() {
        lemma_digits_prefix(d, k + 1);
        assert(d.subrange(0, k + 1).drop_last() =~= d.subrange(0, k));
    } else {
        assert(d.subrange(0, k) =~= d);
    }
}

/// Reads a decimal number as `str::parse::<usize>` does: an optional `+`,
/// then one or more ASCII digits and nothing else; `None` for any other
/// text and for a value above `usize::MAX`.
pub fn parse_usize(s: &str) -> (r: Option<usize>)
    ensures
        r == parse_usize_spec(s@),
{
    let n = s.unicode_len();
    let mut start: usize = 0;
    if n > 0 && s.get_char(0) == '+' {
        start = 1;
    }
    let ghost digits = s@.subrange(start as int, n as int);
    proof {
        if n > 0 && s@[0] == '+' {
            assert(digits =~= s@.drop_first());
        } else {
            assert(digits =~= s@);
        }
    }
    if start >= n {
        return None;
    }
    let mut v: usize = 0;
    let mut i: usize = start;
    while i < n
        invariant
            n == s@.len(),
            start < n,
            start <= i <= n,
            digits == s@.subrange(start as int, n as int),
            digits == unsigned_digits(s@),
            forall|q: int| start <= q < i ==> is_digit(#[trigger] s@[q]),
            v == digits_value(s@.subrange(start as int, i as int)),
        decreases n - i,
    {
        let c = s.get_char(i);
        if !('0' <= c && c <= '9') {
            proof {
                assert(digits[i - start] == s@[i as int]);
                assert(!is_digit(digits[i - start]));
                assert(!all_digits(digits));
                assert(parse_usize_spec(s@) is None);
            }
            return None;
        }
        let d = (c as u32 - '0' as u32) as usize;
        proof {
            assert(s@.subrange(start as int, i + 1).drop_last() =~= s@.subrange(
                start as int,
                i as int,
            ));
        }
        let next = match v.checked_mul(10) {
            Some(t) => t.checked_add(d),
            None => None,
        };
        match next {
            Some(t) => {
                v = t;
            },
            None => {
                proof {
                    let big = s@.subrange(start as int, i + 1);
                    assert(big.last() == c);
                    assert(big.drop_last() =~= s@.subrange(start as int, i as int));
                    assert(d == (c as int - '0' as int));
                    assert(v * 10 + d > usize::MAX);
                    assert(digits_value(big) == v * 10 + d);
                    assert(digits_value(big) > usize::MAX);
                    if all_digits(digits) {
                        lemma_digits_prefix(digits, i + 1 - start);
                        assert(digits.subrange(0, i + 1 - start) =~= big);
                    }
                    assert(parse_usize_spec(s@) is None);
                }
                return None;
            },
        }
        i = i + 1;
    }
    proof {
        assert(s@.subrange(start as int, n as int) =~= digits);
        assert forall|q: int| 0 <= q < digits.len() implies is_digit(#[trigger] digits[q]) by {
            assert(digits[q] == s@[start + q]);
        }
        assert(all_digits(digits));
    }
    Some(v)
}

} // verus!
