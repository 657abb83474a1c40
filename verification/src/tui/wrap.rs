//! Word wrapping for the detail pane. Widths are counted in UTF-8 bytes, as `String::len` does.
use vstd::prelude::*;
use crate::text::{chars_of, is_ws, is_whitespace, string_of};

verus! {

/// Bytes of a character in UTF-8.
pub open spec fn utf8_len(c: char) -> nat {
    if (c as u32) < 0x80 {
        1
    } else if (c as u32) < 0x800 {
        2
    } else if (c as u32) < 0x10000 {
        3
    } else {
        4
    }
}

/// Bytes of a text in UTF-8 (`String::len`).
pub open spec fn blen(s: Seq<char>) -> nat
    decreases s.len(),
{
    if s.len() == 0 {
        0
    } else {
        blen(s.drop_last()) + utf8_len(s.last())
    }
}

pub open spec fn is_nl(c: char) -> bool {
    c == '\n' || c == '\r'
}

/// End of the run of non-newline whitespace starting at `i`.
pub open spec fn ws_end(s: Seq<char>, i: int) -> int
    decreases s.len() - i,
{
    if i >= s.len() || i < 0 {
        i
    } else if is_ws(s[i]) && !is_nl(s[i]) {
        ws_end(s, i + 1)
    } else {
        i
    }
}

/// End of the run of non-whitespace starting at `i`.
pub open spec fn word_end(s: Seq<char>, i: int) -> int
    decreases s.len() - i,
{
    if i >= s.len() || i < 0 {
        i
    } else if !is_ws(s[i]) {
        word_end(s, i + 1)
    } else {
        i
    }
}

pub proof fn lemma_ws_end(s: Seq<char>, i: int)
    requires
        0 <= i <= s.len(),
    ensures
        i <= ws_end(s, i) <= s.len(),
        0 <= i < s.len() && is_ws(s[i]) && !is_nl(s[i]) ==> ws_end(s, i) > i,
        forall|k: int| i <= k < ws_end(s, i) ==> is_ws(#[trigger] s[k]) && !is_nl(s[k]),
        ws_end(s, i) < s.len() ==> !(is_ws(s[ws_end(s, i)]) && !is_nl(s[ws_end(s, i)])),
    decreases s.len() - i,
{
    if i < s.len() && is_ws(s[i]) && !is_nl(s[i]) {
        lemma_ws_end(s, i + 1);
    }
}

pub proof fn lemma_word_end(s: Seq<char>, i: int)
    requires
        0 <= i <= s.len(),
    ensures
        i <= word_end(s, i) <= s.len(),
        0 <= i < s.len() && !is_ws(s[i]) ==> word_end(s, i) > i,
        forall|k: int| i <= k < word_end(s, i) ==> !is_ws(#[trigger] s[k]),
        word_end(s, i) < s.len() ==> is_ws(s[word_end(s, i)]),
    decreases s.len() - i,
{
    if i < s.len() && !is_ws(s[i]) {
        lemma_word_end(s, i + 1);
    }
}

/// A long word cut into pieces of `w` characters: full pieces (exactly `w` bytes) become
/// lines, any other piece becomes the current line.
pub open spec fn place_chunks(word: Seq<char>, w: nat, lines: Seq<Seq<char>>, cur: Seq<char>) -> (Seq<Seq<char>>, Seq<char>)
    decreases word.len(),
{
    if word.len() == 0 || w == 0 {
        (lines, cur)
    } else {
        let n = if w < word.len() {
            w as int
        } else {
            word.len() as int
        };
        let chunk = word.take(n);
        if blen(chunk) == w {
            place_chunks(word.skip(n), w, lines.push(chunk), cur)
        } else {
            place_chunks(word.skip(n), w, lines, chunk)
        }
    }
}

/// The lines made from position `i` on, given the lines so far and the current line: a line
/// break ends the line; whitespace and words join the current line while it stays within `w`
/// bytes, else start the next one; a word longer than `w` is cut into pieces.
pub open spec fn wrap_from(s: Seq<char>, i: int, w: nat, lines: Seq<Seq<char>>, cur: Seq<char>) -> Seq<Seq<char>>
    decreases s.len() - i,
{
    if i < 0 || i >= s.len() {
        if cur.len() > 0 || lines.len() == 0 {
            lines.push(cur)
        } else {
            lines
        }
    } else if is_nl(s[i]) {
        let j = if s[i] == '\r' && i + 1 < s.len() && s[i + 1] == '\n' {
            i + 2
        } else {
            i + 1
        };
        wrap_from(s, j, w, lines.push(cur), Seq::empty())
    } else if is_ws(s[i]) {
        let j = ws_end(s, i);
        proof {
            lemma_ws_end(s, i);
        }
        let ws = s.subrange(i, j);
        if blen(cur) + blen(ws) <= w {
            wrap_from(s, j, w, lines, cur + ws)
        } else {
            wrap_from(s, j, w, lines.push(cur), ws)
        }
    } else {
        let j = word_end(s, i);
        proof {
            lemma_word_end(s, i);
        }
        let word = s.subrange(i, j);
        if blen(word) > w {
            let l1 = if cur.len() > 0 {
                lines.push(cur)
            } else {
                lines
            };
            let p = place_chunks(word, w, l1, Seq::empty());
            wrap_from(s, j, w, p.0, p.1)
        } else if blen(cur) + blen(word) <= w {
            wrap_from(s, j, w, lines, cur + word)
        } else {
            wrap_from(s, j, w, lines.push(cur), word)
        }
    }
}

/// Wrapping always gives at least one line.
pub proof fn lemma_wrap_from_nonempty(s: Seq<char>, i: int, w: nat, lines: Seq<Seq<char>>, cur: Seq<char>)
    ensures
        wrap_from(s, i, w, lines, cur).len() >= 1,
    decreases s.len() - i,
{
    if i < 0 || i >= s.len() {
    } else if is_nl(s[i]) {
        let j = if s[i] == '\r' && i + 1 < s.len() && s[i + 1] == '\n' {
            i + 2
        } else {
            i + 1
        };
        lemma_wrap_from_nonempty(s, j, w, lines.push(cur), Seq::empty());
    } else if is_ws(s[i]) {
        let j = ws_end(s, i);
        lemma_ws_end(s, i);
        let ws = s.subrange(i, j);
        if blen(cur) + blen(ws) <= w {
            lemma_wrap_from_nonempty(s, j, w, lines, cur + ws);
        } else {
            lemma_wrap_from_nonempty(s, j, w, lines.push(cur), ws);
        }
    } else {
        let j = word_end(s, i);
        lemma_word_end(s, i);
        let word = s.subrange(i, j);
        if blen(word) > w {
            let l1 = if cur.len() > 0 {
                lines.push(cur)
            } else {
                lines
            };
            let p = place_chunks(word, w, l1, Seq::empty());
            lemma_wrap_from_nonempty(s, j, w, p.0, p.1);
        } else if blen(cur) + blen(word) <= w {
            lemma_wrap_from_nonempty(s, j, w, lines, cur + word);
        } else {
            lemma_wrap_from_nonempty(s, j, w, lines.push(cur), word);
        }
    }
}

/// Wrapping always gives at least one line.
pub proof fn lemma_wrap_nonempty(s: Seq<char>, w: nat)
    ensures
        wrap_text_spec(s, w).len() >= 1,
{
    if s.len() > 0 && w > 0 {
        lemma_wrap_from_nonempty(s, 0, w, Seq::empty(), Seq::empty());
    }
}

/// The lines `wrap_text` gives.
pub open spec fn wrap_text_spec(s: Seq<char>, w: nat) -> Seq<Seq<char>> {
    if s.len() == 0 {
        seq![Seq::empty()]
    } else if w == 0 {
        seq![s]
    } else {
        wrap_from(s, 0, w, Seq::empty(), Seq::empty())
    }
}

pub proof fn lemma_blen_bound(s: Seq<char>)
    ensures
        blen(s) <= 4 * s.len(),
    decreases s.len(),
{
    if s.len() > 0 {
        lemma_blen_bound(s.drop_last());
    }
}

pub proof fn lemma_blen_concat(a: Seq<char>, b: Seq<char>)
    ensures
        blen(a + b) == blen(a) + blen(b),
    decreases b.len(),
{
    if b.len() > 0 {
        lemma_blen_concat(a, b.drop_last());
        assert((a + b).drop_last() =~= a + b.drop_last());
        assert((a + b).last() == b.last());
    } else {
        assert(a + b =~= a);
    }
}

fn utf8_len_exec(c: char) -> (r: u128)
    ensures
        r == utf8_len(c),
{
    if (c as u32) < 0x80 {
        1
    } else if (c as u32) < 0x800 {
        2
    } else if (c as u32) < 0x10000 {
        3
    } else {
        4
    }
}

/// Bytes of `v[from..to]` in UTF-8.
fn blen_of(v: &Vec<char>, from: usize, to: usize) -> (r: u128)
    requires
        from <= to <= v@.len(),
    ensures
        r == blen(v@.subrange(from as int, to as int)),
{
    let mut acc: u128 = 0;
    let mut k = from;
    proof {
        assert(v@.subrange(from as int, from as int) =~= Seq::<char>::empty());
    }
    while k < to
        invariant
            from <= k <= to <= v@.len(),
            acc == blen(v@.subrange(from as int, k as int)),
            acc <= 4 * (k - from),
        decreases to - k,
    {
        proof {
            assert(v@.subrange(from as int, k + 1).drop_last() =~= v@.subrange(from as int, k as int));
            assert(v@.subrange(from as int, k + 1).last() == v@[k as int]);
        }
        acc = acc + utf8_len_exec(v[k]);
        k = k + 1;
    }
    acc
}

/// Bytes of a text in UTF-8.
pub fn blen_of_pub(v: &Vec<char>) -> (r: u128)
    ensures
        r == blen(v@),
{
    proof {
        assert(v@.subrange(0, v@.len() as int) =~= v@);
    }
    blen_of(v, 0, v.len())
}

fn append_range(cur: &mut String, v: &Vec<char>, from: usize, to: usize)
    requires
        from <= to <= v@.len(),
    ensures
        final(cur)@ == old(cur)@ + v@.subrange(from as int, to as int),
{
    let mut k = from;
    while k < to
        invariant
            from <= k <= to <= v@.len(),
            cur@ == old(cur)@ + v@.subrange(from as int, k as int),
        decreases to - k,
    {
        crate::text::push_char(cur, v[k]);
        proof {
            assert(old(cur)@ + v@.subrange(from as int, k + 1) =~= (old(cur)@ + v@.subrange(from as int, k as int)).push(v@[k as int]));
        }
        k = k + 1;
    }
}

pub open spec fn lines_view(v: Seq<String>) -> Seq<Seq<char>> {
    v.map_values(|s: String| s@)
}

/// Breaks a text into lines of at most `max_width` bytes, at line breaks and between words;
/// a word longer than a line is cut.
pub fn wrap_text(text: &str, max_width: usize) -> (r: Vec<String>)
    ensures
        lines_view(r@) == wrap_text_spec(text@, max_width as nat),
{
    let v = chars_of(text);
    if v.len() == 0 {
        let r = vec![String::new()];
        proof {
            assert(lines_view(r@) =~= seq![Seq::<char>::empty()]);
        }
        return r;
    }
    if max_width == 0 {
        let r = vec![crate::text::to_owned_string(text)];
        proof {
            assert(lines_view(r@) =~= seq![text@]);
        }
        return r;
    }
    let ghost s = v@;
    let ghost w = max_width as nat;
    let wb = max_width as u128;
    let mut lines: Vec<String> = Vec::new();
    let mut cur = String::new();
    let mut cur_b: u128 = 0;
    let mut i: usize = 0;
    proof {
        assert(lines_view(lines@) =~= Seq::<Seq<char>>::empty());
        assert(cur@ =~= Seq::<char>::empty());
    }
    while i < v.len()
        invariant
            s == v@,
            s == text@,
            w == max_width,
            wb == max_width,
            w >= 1,
            i <= s.len(),
            cur@.len() <= i,
            cur_b == blen(cur@),
            wrap_from(s, i as int, w, lines_view(lines@), cur@) == wrap_from(s, 0, w, Seq::empty(), Seq::empty()),
        decreases s.len() - i,
    {
        let c = v[i];
        let ghost lv = lines_view(lines@);
        proof {
            lemma_blen_bound(cur@);
        }
        if c == '\n' || c == '\r' {
            let j = if c == '\r' && i + 1 < v.len() && v[i + 1] == '\n' {
                i + 2
            } else {
                i + 1
            };
            let done = cur;
            proof {
                assert(lines_view(lines@.push(done)) =~= lv.push(done@));
            }
            lines.push(done);
            cur = String::new();
            cur_b = 0;
            proof {
                assert(cur@ =~= Seq::<char>::empty());
            }
            i = j;
        } else if is_whitespace(c) {
            let mut j = i;
            while j < v.len() && is_whitespace(v[j]) && v[j] != '\n' && v[j] != '\r'
                invariant
                    s == v@,
                    i <= j <= s.len(),
                    ws_end(s, i as int) == ws_end(s, j as int),
                decreases s.len() - j,
            {
                j = j + 1;
            }
            proof {
                lemma_ws_end(s, i as int);
                assert(ws_end(s, j as int) == j);
            }
            let ws_b = blen_of(&v, i, j);
            proof {
                lemma_blen_bound(s.subrange(i as int, j as int));
                lemma_blen_concat(cur@, s.subrange(i as int, j as int));
            }
            if cur_b + ws_b <= wb {
                append_range(&mut cur, &v, i, j);
                cur_b = cur_b + ws_b;
            } else {
                let done = cur;
                proof {
                    assert(lines_view(lines@.push(done)) =~= lv.push(done@));
                }
                lines.push(done);
                cur = string_of(&v, i, j);
                cur_b = ws_b;
            }
            i = j;
        } else {
            let mut j = i;
            while j < v.len() && !is_whitespace(v[j])
                invariant
                    s == v@,
                    i <= j <= s.len(),
                    word_end(s, i as int) == word_end(s, j as int),
                decreases s.len() - j,
            {
                j = j + 1;
            }
            proof {
                lemma_word_end(s, i as int);
                assert(word_end(s, j as int) == j);
            }
            let word_b = blen_of(&v, i, j);
            proof {
                lemma_blen_bound(s.subrange(i as int, j as int));
                lemma_blen_concat(cur@, s.subrange(i as int, j as int));
            }
            if word_b > wb {
                if cur.unicode_len() > 0 {
                    let done = cur;
                    proof {
                        assert(lines_view(lines@.push(done)) =~= lv.push(done@));
                    }
                    lines.push(done);
                }
                cur = String::new();
                cur_b = 0;
                proof {
                    assert(cur@ =~= Seq::<char>::empty());
                }
                let ghost word = s.subrange(i as int, j as int);
                let ghost l1 = lines_view(lines@);
                let mut k = i;
                proof {
                    assert(s.subrange(k as int, j as int) =~= word);
                }
                while k < j
                    invariant
                        s == v@,
                        i <= k <= j <= s.len(),
                        w == max_width,
                        wb == max_width,
                        w >= 1,
                        word == s.subrange(i as int, j as int),
                        cur@.len() <= k,
                        cur_b == blen(cur@),
                        place_chunks(s.subrange(k as int, j as int), w, lines_view(lines@), cur@) == place_chunks(word, w, l1, Seq::empty()),
                    decreases j - k,
                {
                    let end = if j - k > max_width {
                        k + max_width
                    } else {
                        j
                    };
                    let chunk_b = blen_of(&v, k, end);
                    let chunk = string_of(&v, k, end);
                    proof {
                        let rest = s.subrange(k as int, j as int);
                        assert(rest.take((end - k) as int) =~= s.subrange(k as int, end as int));
                        assert(rest.skip((end - k) as int) =~= s.subrange(end as int, j as int));
                    }
                    if chunk_b == wb {
                        proof {
                            assert(lines_view(lines@.push(chunk)) =~= lines_view(lines@).push(chunk@));
                        }
                        lines.push(chunk);
                    } else {
                        cur = chunk;
                        cur_b = chunk_b;
                    }
                    k = end;
                }
                proof {
                    assert(s.subrange(j as int, j as int) =~= Seq::<char>::empty());
                }
            } else if cur_b + word_b <= wb {
                append_range(&mut cur, &v, i, j);
                cur_b = cur_b + word_b;
            } else {
                let done = cur;
                proof {
                    assert(lines_view(lines@.push(done)) =~= lv.push(done@));
                }
                lines.push(done);
                cur = string_of(&v, i, j);
                cur_b = word_b;
            }
            i = j;
        }
    }
    if cur.unicode_len() > 0 || lines.len() == 0 {
        proof {
            assert(lines_view(lines@.push(cur)) =~= lines_view(lines@).push(cur@));
        }
        lines.push(cur);
    }
    lines
}

} // verus!
