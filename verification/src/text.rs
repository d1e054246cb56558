//! Greedy word wrapping for the HUD's pixel-font popups (item tooltips,
//! sign and bookshelf text).

use vstd::prelude::*;
use crate::strings::{chars_of, string_from_chars};

verus! {

/// Unicode `White_Space`, the separator set `str::split_whitespace` uses.
pub open spec fn is_space(c: char) -> bool {
    ||| '\u{9}' <= c <= '\u{d}'
    ||| c == ' '
    ||| c == '\u{85}'
    ||| c == '\u{a0}'
    ||| c == '\u{1680}'
    ||| '\u{2000}' <= c <= '\u{200a}'
    ||| c == '\u{2028}'
    ||| c == '\u{2029}'
    ||| c == '\u{202f}'
    ||| c == '\u{205f}'
    ||| c == '\u{3000}'
}

fn is_space_exec(c: char) -> (b: bool)
    ensures
        b == is_space(c),
{
    ('\u{9}' <= c && c <= '\u{d}') || c == ' ' || c == '\u{85}' || c == '\u{a0}' || c == '\u{1680}'
        || ('\u{2000}' <= c && c <= '\u{200a}') || c == '\u{2028}' || c == '\u{2029}' || c
        == '\u{202f}' || c == '\u{205f}' || c == '\u{3000}'
}

/// Bytes in the UTF-8 encoding of `c`.
pub open spec fn char_utf8_len(c: char) -> nat {
    if (c as u32) < 0x80 {
        1
    } else if (c as u32) < 0x800 {
        2
    } else if (c as u32) < 0x10000 {
        3
    } else {
        4
    }
}

/// Bytes in the UTF-8 encoding of `s` (what `str::len` reports).
pub open spec fn utf8_len(s: Seq<char>) -> nat
    decreases s.len(),
{
    if s.len() == 0 {
        0
    } else {
        utf8_len(s.drop_last()) + char_utf8_len(s.last())
    }
}

/// The maximal runs of non-whitespace characters of `s`, in order — what
/// `str::split_whitespace` yields.
pub open spec fn split_words(s: Seq<char>) -> Seq<Seq<char>>
    decreases s.len(),
{
    if s.len() == 0 {
        seq![]
    } else {
        let prev = split_words(s.drop_last());
        let c = s.last();
        if is_space(c) {
            prev
        } else if s.len() >= 2 && !is_space(s[s.len() - 2]) && prev.len() > 0 {
            prev.update(prev.len() - 1, prev.last().push(c))
        } else {
            prev.push(seq![c])
        }
    }
}

/// Greedy wrap state: the finished lines and the line being filled.
pub struct WrapState {
    pub lines: Seq<Seq<char>>,
    pub current: Seq<char>,
}

/// Places one word: if appending it (after a space) would make the current
/// line longer than `max` bytes, the current line is finished first; a
/// word always lands on the current line afterwards, even one longer than
/// `max` on its own.
pub open spec fn wrap_step(state: WrapState, word: Seq<char>, max: nat) -> WrapState {
    let candidate = if state.current.len() == 0 {
        utf8_len(word)
    } else {
        utf8_len(state.current) + 1 + utf8_len(word)
    };
    let flushed = if candidate > max && state.current.len() != 0 {
        WrapState { lines: state.lines.push(state.current), current: seq![] }
    } else {
        state
    };
    let joined = if flushed.current.len() != 0 {
        flushed.current.push(' ') + word
    } else {
        word
    };
    WrapState { lines: flushed.lines, current: joined }
}

/// The wrap state after placing the first `k` words.
pub open spec fn wrap_prefix(words: Seq<Seq<char>>, k: nat, max: nat) -> WrapState
    decreases k,
{
    if k == 0 {
        WrapState { lines: seq![], current: seq![] }
    } else {
        wrap_step(wrap_prefix(words, (k - 1) as nat, max), words[k - 1], max)
    }
}

/// The lines of a greedy wrap of `words` at `max` bytes per line.
pub open spec fn wrap_words(words: Seq<Seq<char>>, max: nat) -> Seq<Seq<char>> {
    let state = wrap_prefix(words, words.len(), max);
    if state.current.len() == 0 {
        state.lines
    } else {
        state.lines.push(state.current)
    }
}

/// The lines of a greedy word wrap of `text` at `max_chars` bytes.
pub open spec fn wrapped_lines(text: Seq<char>, max_chars: nat) -> Seq<Seq<char>> {
    wrap_words(split_words(text), max_chars)
}

proof fn lemma_utf8_len_concat(a: Seq<char>, b: Seq<char>)
    ensures
        utf8_len(a + b) == utf8_len(a) + utf8_len(b),
    decreases b.len(),
{
    if b.len() > 0 {
        lemma_utf8_len_concat(a, b.drop_last());
        assert((a + b).drop_last() =~= a + b.drop_last());
    } else {
        assert(a + b =~= a);
    }
}

proof fn lemma_utf8_len_push(a: Seq<char>, c: char)
    ensures
        utf8_len(a.push(c)) == utf8_len(a) + char_utf8_len(c),
{
    assert(a.push(c).drop_last() =~= a);
}

/// A non-empty text ending in a non-space character ends inside a word.
proof fn lemma_split_words_last(s: Seq<char>)
    requires
        s.len() > 0,
        !is_space(s.last()),
    ensures
        split_words(s).len() > 0,
        split_words(s).last().len() > 0,
        split_words(s).last().last() == s.last(),
{
    let prev = split_words(s.drop_last());
    if s.len() >= 2 && !is_space(s[s.len() - 2]) && prev.len() > 0 {
        assert(split_words(s) == prev.update(prev.len() - 1, prev.last().push(s.last())));
    } else {
        assert(split_words(s) == prev.push(seq![s.last()]));
    }
}

/// The wrap state after `k` words depends only on the first `k` words.
proof fn lemma_wrap_prefix_depends_on_prefix(w1: Seq<Seq<char>>, w2: Seq<Seq<char>>, k: nat, max: nat)
    requires
        k <= w1.len(),
        k <= w2.len(),
        forall|i: int| 0 <= i < k ==> w1[i] == w2[i],
    ensures
        wrap_prefix(w1, k, max) == wrap_prefix(w2, k, max),
    decreases k,
{
    if k > 0 {
        lemma_wrap_prefix_depends_on_prefix(w1, w2, (k - 1) as nat, max);
    }
}

/// `parts` joined with single spaces.
pub open spec fn join_spaced(parts: Seq<Seq<char>>) -> Seq<char>
    decreases parts.len(),
{
    if parts.len() == 0 {
        seq![]
    } else if parts.len() == 1 {
        parts[0]
    } else {
        join_spaced(parts.drop_last()).push(' ') + parts.last()
    }
}

pub open spec fn has_no_space(s: Seq<char>) -> bool {
    forall|i: int| 0 <= i < s.len() ==> !is_space(#[trigger] s[i])
}

/// A wrapped line either fits the limit or is one over-long word.
pub open spec fn line_fits(line: Seq<char>, max: nat) -> bool {
    utf8_len(line) <= max || has_no_space(line)
}

/// Every word `split_words` yields is non-empty and free of whitespace.
proof fn lemma_split_words_shape(s: Seq<char>)
    ensures
        forall|i: int|
            0 <= i < split_words(s).len() ==> #[trigger] split_words(s)[i].len() > 0 && has_no_space(
                split_words(s)[i],
            ),
    decreases s.len(),
{
    if s.len() > 0 {
        lemma_split_words_shape(s.drop_last());
        let prev = split_words(s.drop_last());
        let c = s.last();
        if !is_space(c) {
            if s.len() >= 2 && !is_space(s[s.len() - 2]) && prev.len() > 0 {
                let w = prev.last().push(c);
                assert(has_no_space(w)) by {
                    assert forall|i: int| 0 <= i < w.len() implies !is_space(#[trigger] w[i]) by {
                        if i < w.len() - 1 {
                            assert(w[i] == prev[prev.len() - 1][i]);
                        }
                    }
                }
            } else {
                assert(has_no_space(seq![c]));
            }
        }
    }
}

proof fn lemma_join_push(parts: Seq<Seq<char>>, part: Seq<char>)
    ensures
        join_spaced(parts.push(part)) == if parts.len() == 0 {
            part
        } else {
            join_spaced(parts).push(' ') + part
        },
{
    assert(parts.push(part).drop_last() =~= parts);
}

/// Invariants of the greedy wrap after `k` words.
proof fn lemma_wrap_prefix_invariants(words: Seq<Seq<char>>, k: nat, max: nat)
    requires
        k <= words.len(),
        forall|i: int| 0 <= i < words.len() ==> #[trigger] words[i].len() > 0 && has_no_space(words[i]),
    ensures
        ({
            let st = wrap_prefix(words, k, max);
            let full = if st.current.len() == 0 {
                st.lines
            } else {
                st.lines.push(st.current)
            };
            &&& k == 0 ==> st.lines.len() == 0 && st.current.len() == 0
            &&& k > 0 ==> st.current.len() > 0
            &&& join_spaced(full) == join_spaced(words.take(k as int))
            &&& line_fits(st.current, max)
            &&& forall|i: int|
                0 <= i < st.lines.len() ==> #[trigger] st.lines[i].len() > 0 && line_fits(
                    st.lines[i],
                    max,
                )
        }),
    decreases k,
{
    if k == 0 {
        assert(words.take(0) =~= Seq::<Seq<char>>::empty());
        assert(has_no_space(Seq::<char>::empty()));
    } else {
        let j = (k - 1) as nat;
        lemma_wrap_prefix_invariants(words, j, max);
        let st = wrap_prefix(words, j, max);
        let w = words[j as int];
        assert(words.take(k as int) =~= words.take(j as int).push(w));
        lemma_join_push(words.take(j as int), w);
        let candidate = if st.current.len() == 0 {
            utf8_len(w)
        } else {
            utf8_len(st.current) + 1 + utf8_len(w)
        };
        if st.current.len() == 0 {
            assert(j == 0);
            lemma_join_push(st.lines, w);
        } else if candidate > max {
            lemma_join_push(st.lines.push(st.current), w);
            lemma_join_push(st.lines, st.current);
        } else {
            let joined = st.current.push(' ') + w;
            lemma_utf8_len_concat(st.current.push(' '), w);
            lemma_utf8_len_push(st.current, ' ');
            lemma_join_push(st.lines, joined);
            lemma_join_push(st.lines, st.current);
            if st.lines.len() == 0 {
                assert(join_spaced(st.lines.push(joined)) == joined);
            } else {
                assert(join_spaced(st.lines).push(' ') + joined =~= (join_spaced(st.lines).push(' ')
                    + st.current).push(' ') + w);
            }
        }
    }
}

/// The greedy wrap keeps every word, in order, with single spaces between
/// (joining the lines with spaces gives back the words joined with
/// spaces); no line is empty; and each line fits `max_chars` bytes unless
/// it is a single word that is longer on its own.
pub proof fn lemma_wrap_text_laws(text: Seq<char>, max_chars: nat)
    ensures
        join_spaced(wrapped_lines(text, max_chars)) == join_spaced(split_words(text)),
        forall|i: int|
            0 <= i < wrapped_lines(text, max_chars).len() ==> #[trigger] wrapped_lines(text, max_chars)[i].len()
                > 0 && line_fits(wrapped_lines(text, max_chars)[i], max_chars),
{
    let words = split_words(text);
    lemma_split_words_shape(text);
    lemma_wrap_prefix_invariants(words, words.len(), max_chars);
    assert(words.take(words.len() as int) =~= words);
    let st = wrap_prefix(words, words.len(), max_chars);
    if st.current.len() > 0 {
        let lines = st.lines.push(st.current);
        assert forall|i: int| 0 <= i < lines.len() implies #[trigger] lines[i].len() > 0 && line_fits(
            lines[i],
            max_chars,
        ) by {
            if i < st.lines.len() {
                assert(lines[i] == st.lines[i]);
            }
        }
    }
}

pub open spec fn sat(n: int) -> int {
    if n > usize::MAX {
        usize::MAX as int
    } else {
        n
    }
}

/// Places `word` (with its byte length, saturated) onto the running wrap.
fn place_word(
    lines: &mut Vec<String>,
    current: &mut Vec<char>,
    current_bytes: &mut usize,
    word: &Vec<char>,
    word_bytes: usize,
    max_chars: usize,
)
    requires
        *old(current_bytes) == sat(utf8_len(old(current)@) as int),
        word_bytes == sat(utf8_len(word@) as int),
    ensures
        ({
            let next = wrap_step(
                WrapState {
                    lines: old(lines)@.map_values(|l: String| l@),
                    current: old(current)@,
                },
                word@,
                max_chars as nat,
            );
            &&& final(lines)@.map_values(|l: String| l@) == next.lines
            &&& final(current)@ == next.current
        }),
        *final(current_bytes) == sat(utf8_len(final(current)@) as int),
{
    let ghost old_lines = lines@.map_values(|l: String| l@);
    let too_long = if current.len() == 0 {
        word_bytes > max_chars
    } else {
        match current_bytes.checked_add(1) {
            Some(with_space) => match with_space.checked_add(word_bytes) {
                Some(candidate) => candidate > max_chars,
                None => true,
            },
            None => true,
        }
    };
    proof {
        if current.len() != 0 {
            assert(utf8_len(current@) > 0) by {
                assert(current@ =~= current@.drop_last().push(current@.last()));
                lemma_utf8_len_push(current@.drop_last(), current@.last());
            }
        }
    }
    if too_long && current.len() != 0 {
        let line = string_from_chars(current);
        lines.push(line);
        proof {
            assert(lines@.map_values(|l: String| l@) =~= old_lines.push(old(current)@));
        }
        *current = Vec::new();
        *current_bytes = 0;
    }
    let ghost flushed = current@;
    if current.len() != 0 {
        current.push(' ');
        proof {
            lemma_utf8_len_push(flushed, ' ');
        }
        *current_bytes = if *current_bytes == usize::MAX {
            usize::MAX
        } else {
            *current_bytes + 1
        };
    }
    let ghost spaced = current@;
    let mut i: usize = 0;
    while i < word.len()
        invariant
            i <= word.len(),
            current@ == spaced + word@.subrange(0, i as int),
    decreases word.len() - i,
    {
        current.push(word[i]);
        proof {
            assert(spaced + word@.subrange(0, i + 1) =~= (spaced + word@.subrange(0, i as int)).push(
                word@[i as int],
            ));
        }
        i = i + 1;
    }
    proof {
        assert(word@.subrange(0, word.len() as int) =~= word@);
        lemma_utf8_len_concat(spaced, word@);
    }
    *current_bytes = match current_bytes.checked_add(word_bytes) {
        Some(total) => total,
        None => usize::MAX,
    };
}

/// Greedy word wrap at `max_chars` bytes per line: words are the
/// whitespace-separated runs of `text`, joined by single spaces; a word
/// starts a new line when it would push the current one past `max_chars`.
/// A single word longer than the limit stands on a line of its own.
/// Whitespace-only text gives no lines at all.
pub fn wrap_text(text: &str, max_chars: usize) -> (lines: Vec<String>)
    ensures
        lines@.map_values(|l: String| l@) == wrapped_lines(text@, max_chars as nat),
{
    let chars = chars_of(text);
    wrap_chars(&chars, max_chars)
}

fn wrap_chars(chars: &Vec<char>, max_chars: usize) -> (lines: Vec<String>)
    ensures
        lines@.map_values(|l: String| l@) == wrapped_lines(chars@, max_chars as nat),
{
    let ghost max = max_chars as nat;
    let mut lines: Vec<String> = Vec::new();
    let mut current: Vec<char> = Vec::new();
    let mut current_bytes: usize = 0;
    let mut word: Vec<char> = Vec::new();
    let mut word_bytes: usize = 0;
    let mut i: usize = 0;
    proof {
        assert(lines@.map_values(|l: String| l@) =~= Seq::<Seq<char>>::empty());
        assert(chars@.subrange(0, 0) =~= Seq::<char>::empty());
        assert(current@ =~= Seq::<char>::empty());
    }
    while i < chars.len()
        invariant
            i <= chars.len(),
            max == max_chars,
            current_bytes == sat(utf8_len(current@) as int),
            word_bytes == sat(utf8_len(word@) as int),
            ({
                let prefix = chars@.subrange(0, i as int);
                let words = split_words(prefix);
                let state = WrapState {
                    lines: lines@.map_values(|l: String| l@),
                    current: current@,
                };
                &&& (word@.len() > 0 <==> (i > 0 && !is_space(prefix.last())))
                &&& word@.len() > 0 ==> words.len() > 0 && words.last() == word@ && state
                    == wrap_prefix(words, (words.len() - 1) as nat, max)
                &&& word@.len() == 0 ==> state == wrap_prefix(words, words.len(), max)
            }),
        decreases chars.len() - i,
    {
        let c = chars[i];
        let ghost prefix = chars@.subrange(0, i as int);
        let ghost next_prefix = chars@.subrange(0, i + 1);
        let ghost words = split_words(prefix);
        proof {
            assert(next_prefix.drop_last() =~= prefix);
            assert(next_prefix.last() == c);
        }
        if is_space_exec(c) {
            if word.len() > 0 {
                place_word(&mut lines, &mut current, &mut current_bytes, &word, word_bytes, max_chars);
                word = Vec::new();
                word_bytes = 0;
            }
        } else {
            let char_bytes: usize = if (c as u32) < 0x80 {
                1
            } else if (c as u32) < 0x800 {
                2
            } else if (c as u32) < 0x10000 {
                3
            } else {
                4
            };
            proof {
                lemma_utf8_len_push(word@, c);
                if word@.len() > 0 {
                    assert(i > 0);
                    assert(next_prefix[next_prefix.len() - 2] == prefix.last());
                    let nw = split_words(next_prefix);
                    assert(nw == words.update(words.len() - 1, words.last().push(c)));
                    lemma_wrap_prefix_depends_on_prefix(
                        words,
                        nw,
                        (words.len() - 1) as nat,
                        max,
                    );
                } else {
                    let nw = split_words(next_prefix);
                    if i > 0 {
                        assert(next_prefix[next_prefix.len() - 2] == prefix.last());
                    }
                    assert(nw == words.push(seq![c]));
                    lemma_wrap_prefix_depends_on_prefix(words, nw, words.len(), max);
                }
            }
            word.push(c);
            word_bytes = match word_bytes.checked_add(char_bytes) {
                Some(total) => total,
                None => usize::MAX,
            };
        }
        i = i + 1;
    }
    proof {
        assert(chars@.subrange(0, chars.len() as int) =~= chars@);
    }
    if word.len() > 0 {
        place_word(&mut lines, &mut current, &mut current_bytes, &word, word_bytes, max_chars);
    }
    if current.len() > 0 {
        let line = string_from_chars(&current);
        let ghost before = lines@.map_values(|l: String| l@);
        lines.push(line);
        proof {
            assert(lines@.map_values(|l: String| l@) =~= before.push(current@));
        }
    }
    lines
}

} // verus!
