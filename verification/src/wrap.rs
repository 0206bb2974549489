//! Greedy word-wrapping in display columns.
//!
//! A cell's text is split at whitespace into tokens; a token wider than the
//! wrap width is cut at column boundaries (no hyphen is inserted, and a
//! single character wider than the width stands alone and overflows). The
//! fragments are then packed greedily into lines: a fragment joins the
//! current line when it still fits after a single joining space, otherwise it
//! begins a new line.

use vstd::prelude::*;

use crate::text::char_columns;
use crate::text::lemma_str_columns_concat;
use crate::text::lemma_str_columns_nonneg;
use crate::text::str_columns;

verus! {

/// Whether `c` is whitespace (the Unicode `White_Space` set).
pub open spec fn is_space_char(c: char) -> bool {
    ||| c as u32 == 0x20
    ||| 0x9 <= c as u32 <= 0xD
    ||| c as u32 == 0x85
    ||| c as u32 == 0xA0
    ||| c as u32 == 0x1680
    ||| 0x2000 <= c as u32 <= 0x200A
    ||| c as u32 == 0x2028
    ||| c as u32 == 0x2029
    ||| c as u32 == 0x202F
    ||| c as u32 == 0x205F
    ||| c as u32 == 0x3000
}

pub(crate) fn is_space(c: char) -> (r: bool)
    ensures
        r == is_space_char(c),
{
    let u: u32 = c as u32;
    u == 0x20 || (0x9 <= u && u <= 0xD) || u == 0x85 || u == 0xA0 || u == 0x1680 || (0x2000 <= u
        && u <= 0x200A) || u == 0x2028 || u == 0x2029 || u == 0x202F || u == 0x205F || u == 0x3000
}

/// The whitespace-delimited tokens of `cur + s`, where `cur` is a token
/// under construction out of characters already consumed.
pub open spec fn tokens_from(s: Seq<char>, cur: Seq<char>) -> Seq<Seq<char>>
    decreases s.len(),
{
    if s.len() == 0 {
        if cur.len() == 0 {
            Seq::empty()
        } else {
            seq![cur]
        }
    } else if is_space_char(s[0]) {
        if cur.len() == 0 {
            tokens_from(s.drop_first(), Seq::empty())
        } else {
            seq![cur] + tokens_from(s.drop_first(), Seq::empty())
        }
    } else {
        tokens_from(s.drop_first(), cur.push(s[0]))
    }
}

/// The whitespace-delimited tokens of `s`, in order.
pub open spec fn tokens_of(s: Seq<char>) -> Seq<Seq<char>> {
    tokens_from(s, Seq::empty())
}

/// How many leading characters of `t` fit within `w` columns.
pub open spec fn fit_len(t: Seq<char>, w: int) -> int
    decreases t.len(),
{
    if t.len() == 0 {
        0
    } else if char_columns(t[0]) > w {
        0
    } else {
        1 + fit_len(t.drop_first(), w - char_columns(t[0]))
    }
}

/// The length of the first fragment cut from token `t` at width `w`: the
/// longest prefix that fits, but always at least one character.
pub open spec fn frag_len(t: Seq<char>, w: int) -> int {
    let f = fit_len(t, w);
    if f < 1 {
        1
    } else if f > t.len() {
        t.len() as int
    } else {
        f
    }
}

/// Token `t` cut into fragments of at most `w` columns each; a character
/// wider than `w` stands as a fragment of its own.
pub open spec fn fragments(t: Seq<char>, w: int) -> Seq<Seq<char>>
    decreases t.len(),
{
    if t.len() == 0 {
        Seq::empty()
    } else {
        seq![t.take(frag_len(t, w))] + fragments(t.skip(frag_len(t, w)), w)
    }
}

/// The tokens of a text, in order, each cut into fragments for width `w`.
pub open spec fn fragments_of_tokens(ts: Seq<Seq<char>>, w: int) -> Seq<Seq<char>>
    decreases ts.len(),
{
    if ts.len() == 0 {
        Seq::empty()
    } else {
        fragments(ts[0], w) + fragments_of_tokens(ts.drop_first(), w)
    }
}

/// The words of one line, joined by single spaces.
pub open spec fn line_join(ws: Seq<Seq<char>>) -> Seq<char>
    decreases ws.len(),
{
    if ws.len() == 0 {
        Seq::empty()
    } else if ws.len() == 1 {
        ws[0]
    } else {
        ws[0] + seq![' '] + line_join(ws.drop_first())
    }
}

/// The display width of one line of words joined by single spaces.
pub open spec fn line_columns(ws: Seq<Seq<char>>) -> int
    decreases ws.len(),
{
    if ws.len() == 0 {
        0
    } else if ws.len() == 1 {
        str_columns(ws[0])
    } else {
        str_columns(ws[0]) + char_columns(' ') + line_columns(ws.drop_first())
    }
}

/// Greedy packing of fragments into lines of at most `w` columns: a fragment
/// joins the current line when it still fits after a joining space,
/// otherwise it begins a new line.
pub open spec fn pack(frags: Seq<Seq<char>>, w: int, cur: Seq<Seq<char>>) -> Seq<Seq<Seq<char>>>
    decreases frags.len(),
{
    if frags.len() == 0 {
        if cur.len() == 0 {
            Seq::empty()
        } else {
            seq![cur]
        }
    } else if cur.len() == 0 {
        pack(frags.drop_first(), w, seq![frags[0]])
    } else if line_columns(cur) + char_columns(' ') + str_columns(frags[0]) <= w {
        pack(frags.drop_first(), w, cur.push(frags[0]))
    } else {
        seq![cur] + pack(frags.drop_first(), w, seq![frags[0]])
    }
}

/// The greedy word-wrap of `s` at `w` columns, as a sequence of lines.
pub open spec fn wrap_lines(s: Seq<char>, w: int) -> Seq<Seq<char>> {
    pack(fragments_of_tokens(tokens_of(s), w), w, Seq::empty()).map_values(
        |ws: Seq<Seq<char>>| line_join(ws),
    )
}

/// The views of a sequence of character vectors.
pub open spec fn char_vec_views(ts: Seq<Vec<char>>) -> Seq<Seq<char>> {
    ts.map_values(|t: Vec<char>| t@)
}

/// Each packed line of words, joined by single spaces.
pub open spec fn joined_lines(packed: Seq<Seq<Seq<char>>>) -> Seq<Seq<char>> {
    packed.map_values(|ws: Seq<Seq<char>>| line_join(ws))
}

/// Joining one more word onto a line appends a single space and the word.
pub proof fn lemma_line_join_push(ws: Seq<Seq<char>>, x: Seq<char>)
    ensures
        line_join(ws.push(x)) == if ws.len() == 0 {
            x
        } else {
            line_join(ws) + seq![' '] + x
        },
    decreases ws.len(),
{
    if ws.len() == 0 {
        assert(ws.push(x)[0] == x);
        assert(line_join(ws.push(x)) == x);
    } else if ws.len() == 1 {
        assert(ws.push(x).drop_first() =~= ws.drop_first().push(x));
        assert(ws.push(x)[0] == ws[0]);
        assert(line_join(ws.drop_first().push(x)) == x);
    } else {
        lemma_line_join_push(ws.drop_first(), x);
        assert(ws.push(x).drop_first() =~= ws.drop_first().push(x));
        assert(ws.push(x)[0] == ws[0]);
    }
}

/// Joining one more word widens a line by the word and a space.
pub proof fn lemma_line_columns_push(ws: Seq<Seq<char>>, x: Seq<char>)
    ensures
        line_columns(ws.push(x)) == if ws.len() == 0 {
            str_columns(x)
        } else {
            line_columns(ws) + char_columns(' ') + str_columns(x)
        },
    decreases ws.len(),
{
    if ws.len() == 0 {
        assert(ws.push(x).len() == 1);
        assert(ws.push(x)[0] == x);
        assert(line_columns(ws.push(x)) == str_columns(x));
    } else if ws.len() == 1 {
        assert(ws.push(x).drop_first() =~= ws.drop_first().push(x));
        assert(ws.push(x)[0] == ws[0]);
        assert(ws.drop_first().push(x)[0] == x);
        assert(line_columns(ws.drop_first().push(x)) == str_columns(x));
    } else {
        lemma_line_columns_push(ws.drop_first(), x);
        assert(ws.push(x).drop_first() =~= ws.drop_first().push(x));
        assert(ws.push(x)[0] == ws[0]);
    }
}

/// The width of a joined line is the width of its words and joining spaces.
pub proof fn lemma_line_join_columns(ws: Seq<Seq<char>>)
    ensures
        str_columns(line_join(ws)) == line_columns(ws),
    decreases ws.len(),
{
    if ws.len() <= 1 {
    } else {
        lemma_line_join_columns(ws.drop_first());
        lemma_str_columns_concat(ws[0] + seq![' '], line_join(ws.drop_first()));
        lemma_str_columns_concat(ws[0], seq![' ']);
        crate::text::lemma_str_columns_singleton(' ');
    }
}

/// A prefix of a token is no wider than the token.
pub proof fn lemma_take_columns_le(t: Seq<char>, k: int)
    requires
        0 <= k <= t.len(),
    ensures
        str_columns(t.take(k)) <= str_columns(t),
{
    assert(t =~= t.take(k) + t.skip(k));
    lemma_str_columns_concat(t.take(k), t.skip(k));
    lemma_str_columns_nonneg(t.skip(k));
}

/// Every fragment of a token is no wider than the token itself.
pub proof fn lemma_fragments_columns(t: Seq<char>, w: int)
    ensures
        forall|i: int|
            0 <= i < fragments(t, w).len() ==> str_columns(fragments(t, w)[i]) <= str_columns(t),
    decreases t.len(),
{
    if t.len() > 0 {
        let k = frag_len(t, w);
        lemma_take_columns_le(t, k);
        lemma_fragments_columns(t.skip(k), w);
        assert(t =~= t.take(k) + t.skip(k));
        lemma_str_columns_concat(t.take(k), t.skip(k));
        lemma_str_columns_nonneg(t.take(k));
        assert forall|i: int| 0 <= i < fragments(t, w).len() implies str_columns(
            fragments(t, w)[i],
        ) <= str_columns(t) by {
            if i > 0 {
                assert(fragments(t, w)[i] == fragments(t.skip(k), w)[i - 1]);
            }
        }
    }
}

/// Every token produced by tokenization is no wider than the text it came
/// from together with the token under construction.
pub proof fn lemma_tokens_from_columns(s: Seq<char>, cur: Seq<char>)
    ensures
        forall|i: int|
            0 <= i < tokens_from(s, cur).len() ==> str_columns(tokens_from(s, cur)[i])
                <= str_columns(cur) + str_columns(s),
    decreases s.len(),
{
    lemma_str_columns_nonneg(s);
    lemma_str_columns_nonneg(cur);
    assert(str_columns(Seq::<char>::empty()) == 0);
    if s.len() == 0 {
    } else {
        let rest = s.drop_first();
        assert(s =~= seq![s[0]] + rest);
        lemma_str_columns_concat(seq![s[0]], rest);
        crate::text::lemma_str_columns_singleton(s[0]);
        lemma_str_columns_nonneg(rest);
        assert(str_columns(s) == char_columns(s[0]) + str_columns(rest));
        if is_space_char(s[0]) {
            lemma_tokens_from_columns(rest, Seq::empty());
            if cur.len() > 0 {
                assert forall|i: int| 0 <= i < tokens_from(s, cur).len() implies str_columns(
                    tokens_from(s, cur)[i],
                ) <= str_columns(cur) + str_columns(s) by {
                    assert(tokens_from(s, cur) == seq![cur] + tokens_from(rest, Seq::empty()));
                    if i > 0 {
                        assert(tokens_from(s, cur)[i] == tokens_from(rest, Seq::empty())[i - 1]);
                        assert(str_columns(tokens_from(rest, Seq::empty())[i - 1]) <= str_columns(
                            Seq::<char>::empty(),
                        ) + str_columns(rest));
                    } else {
                        assert(tokens_from(s, cur)[i] == cur);
                    }
                }
            } else {
                assert(tokens_from(s, cur) == tokens_from(rest, Seq::empty()));
                assert forall|i: int| 0 <= i < tokens_from(s, cur).len() implies str_columns(
                    tokens_from(s, cur)[i],
                ) <= str_columns(cur) + str_columns(s) by {
                    assert(str_columns(tokens_from(rest, Seq::empty())[i]) <= str_columns(
                        Seq::<char>::empty(),
                    ) + str_columns(rest));
                }
            }
        } else {
            lemma_tokens_from_columns(rest, cur.push(s[0]));
            crate::text::lemma_str_columns_push(cur, s[0]);
            assert(tokens_from(s, cur) == tokens_from(rest, cur.push(s[0])));
            assert forall|i: int| 0 <= i < tokens_from(s, cur).len() implies str_columns(
                tokens_from(s, cur)[i],
            ) <= str_columns(cur) + str_columns(s) by {
                assert(str_columns(tokens_from(rest, cur.push(s[0]))[i]) <= str_columns(
                    cur.push(s[0]),
                ) + str_columns(rest));
            }
        }
    }
}

/// Every token of a text is no wider than the text.
pub proof fn lemma_tokens_columns(s: Seq<char>)
    ensures
        forall|i: int|
            0 <= i < tokens_of(s).len() ==> str_columns(tokens_of(s)[i]) <= str_columns(s),
{
    lemma_tokens_from_columns(s, Seq::empty());
}

/// Cutting tokens into fragments does not widen any piece beyond `bound`
/// when no token is wider than `bound`.
pub proof fn lemma_fragments_of_tokens_columns(ts: Seq<Seq<char>>, w: int, bound: int)
    requires
        forall|i: int| 0 <= i < ts.len() ==> str_columns(ts[i]) <= bound,
    ensures
        forall|i: int|
            0 <= i < fragments_of_tokens(ts, w).len() ==> str_columns(
                fragments_of_tokens(ts, w)[i],
            ) <= bound,
    decreases ts.len(),
{
    if ts.len() > 0 {
        lemma_fragments_columns(ts[0], w);
        assert(forall|i: int|
            0 <= i < ts.drop_first().len() ==> str_columns(ts.drop_first()[i]) <= bound);
        lemma_fragments_of_tokens_columns(ts.drop_first(), w, bound);
        let head = fragments(ts[0], w);
        assert forall|i: int| 0 <= i < fragments_of_tokens(ts, w).len() implies str_columns(
            fragments_of_tokens(ts, w)[i],
        ) <= bound by {
            if i >= head.len() {
                assert(fragments_of_tokens(ts, w)[i] == fragments_of_tokens(ts.drop_first(), w)[i
                    - head.len()]);
            }
        }
    }
}

/// Appends the characters of `src` to `dst`.
fn append_chars(dst: &mut Vec<char>, src: &Vec<char>)
    ensures
        final(dst)@ == old(dst)@ + src@,
{
    let n: usize = src.len();
    let mut i: usize = 0;
    while i < n
        invariant
            i <= n,
            n == src@.len(),
            dst@ == old(dst)@ + src@.take(i as int),
        decreases n - i,
    {
        dst.push(src[i]);
        i = i + 1;
        proof {
            assert(dst@ =~= old(dst)@ + src@.take(i as int));
        }
    }
    proof {
        assert(old(dst)@ + src@.take(n as int) =~= old(dst)@ + src@);
    }
}

/// The whitespace-delimited tokens of `s`, as character vectors.
pub(crate) fn tokenize(s: &Vec<char>) -> (r: Vec<Vec<char>>)
    ensures
        char_vec_views(r@) == tokens_of(s@),
{
    let n: usize = s.len();
    let mut out: Vec<Vec<char>> = Vec::new();
    let mut cur: Vec<char> = Vec::new();
    let mut i: usize = 0;
    proof {
        assert(s@.skip(0) =~= s@);
        assert(char_vec_views(out@) + tokens_from(s@, cur@) =~= tokens_of(s@));
    }
    while i < n
        invariant
            i <= n,
            n == s@.len(),
            tokens_of(s@) == char_vec_views(out@) + tokens_from(s@.skip(i as int), cur@),
        decreases n - i,
    {
        let ghost sk = s@.skip(i as int);
        proof {
            assert(sk[0] == s@[i as int]);
            assert(sk.drop_first() =~= s@.skip(i as int + 1));
        }
        let c: char = s[i];
        if is_space(c) {
            if cur.len() == 0 {
                proof {
                    assert(cur@ =~= Seq::<char>::empty());
                }
            }
            if cur.len() > 0 {
                proof {
                    assert(tokens_from(sk, cur@) == seq![cur@] + tokens_from(
                        sk.drop_first(),
                        Seq::empty(),
                    ));
                }
                let ghost old_out = out@;
                let ghost old_cur = cur@;
                out.push(cur);
                cur = Vec::new();
                proof {
                    assert(char_vec_views(out@) =~= char_vec_views(old_out).push(old_cur));
                    assert(char_vec_views(old_out) + (seq![old_cur] + tokens_from(
                        sk.drop_first(),
                        Seq::empty(),
                    )) =~= char_vec_views(out@) + tokens_from(sk.drop_first(), cur@));
                }
            }
        } else {
            cur.push(c);
        }
        i = i + 1;
    }
    proof {
        assert(s@.skip(n as int) =~= Seq::<char>::empty());
    }
    if cur.len() > 0 {
        let ghost old_out = out@;
        let ghost old_cur = cur@;
        out.push(cur);
        proof {
            assert(char_vec_views(out@) =~= char_vec_views(old_out).push(old_cur));
            assert(char_vec_views(old_out) + seq![old_cur] =~= char_vec_views(out@));
        }
    } else {
        proof {
            assert(char_vec_views(out@) + Seq::<Seq<char>>::empty() =~= char_vec_views(out@));
        }
    }
    out
}

/// Appends to `out` the fragments of the token `t`, cut for width `w`.
pub(crate) fn fragment_push(out: &mut Vec<Vec<char>>, t: &Vec<char>, w: usize)
    requires
        str_columns(t@) <= usize::MAX,
    ensures
        char_vec_views(final(out)@) == char_vec_views(old(out)@) + fragments(t@, w as int),
{
    let n: usize = t.len();
    let ghost base = out@.len() as int;
    let mut i: usize = 0;
    proof {
        assert(t@.skip(0) =~= t@);
        assert(char_vec_views(out@).take(base) =~= char_vec_views(old(out)@));
        assert(char_vec_views(out@).skip(base) =~= Seq::<Seq<char>>::empty());
        assert(Seq::<Seq<char>>::empty() + fragments(t@, w as int) =~= fragments(t@, w as int));
    }
    while i < n
        invariant
            i <= n,
            n == t@.len(),
            str_columns(t@) <= usize::MAX,
            out@.len() >= base >= 0,
            char_vec_views(out@).take(base) == char_vec_views(old(out)@),
            fragments(t@, w as int) == char_vec_views(out@).skip(base) + fragments(
                t@.skip(i as int),
                w as int,
            ),
        decreases n - i,
    {
        let mut j: usize = i;
        let mut acc: usize = 0;
        proof {
            assert(t@.subrange(i as int, i as int) =~= Seq::<char>::empty());
        }
        loop
            invariant
                i <= j <= n,
                n == t@.len(),
                i < n,
                str_columns(t@) <= usize::MAX,
                acc <= w,
                acc == str_columns(t@.subrange(i as int, j as int)),
                fit_len(t@.skip(i as int), w as int) == (j - i) + fit_len(
                    t@.skip(j as int),
                    w - acc,
                ),
            ensures
                i <= j <= n,
                acc <= w,
                acc == str_columns(t@.subrange(i as int, j as int)),
                fit_len(t@.skip(i as int), w as int) == j - i,
            decreases n - j,
        {
            if j >= n {
                proof {
                    assert(t@.skip(j as int) =~= Seq::<char>::empty());
                }
                break ;
            }
            let cw: usize = crate::text::char_display_width(t[j]);
            proof {
                assert(t@.skip(j as int)[0] == t@[j as int]);
            }
            if cw > w - acc {
                break ;
            }
            proof {
                assert(t@.skip(j as int).drop_first() =~= t@.skip(j as int + 1));
                assert(t@.subrange(i as int, j as int + 1) =~= t@.subrange(
                    i as int,
                    j as int,
                ).push(t@[j as int]));
                crate::text::lemma_str_columns_push(t@.subrange(i as int, j as int), t@[j as int]);
            }
            acc = acc + cw;
            j = j + 1;
        }
        let fl: usize = if j == i {
            1
        } else {
            j - i
        };
        proof {
            assert(fl == frag_len(t@.skip(i as int), w as int));
        }
        let mut frag: Vec<char> = Vec::new();
        let mut p: usize = 0;
        while p < fl
            invariant
                p <= fl,
                i + fl <= n,
                n == t@.len(),
                frag@ == t@.subrange(i as int, i as int + p),
            decreases fl - p,
        {
            frag.push(t[i + p]);
            p = p + 1;
            proof {
                assert(frag@ =~= t@.subrange(i as int, i as int + p));
            }
        }
        let ghost sk = t@.skip(i as int);
        let ghost old_out = out@;
        let ghost old_frag = frag@;
        proof {
            assert(frag@ =~= sk.take(fl as int));
            assert(fragments(sk, w as int) == seq![sk.take(fl as int)] + fragments(
                sk.skip(fl as int),
                w as int,
            ));
            assert(sk.skip(fl as int) =~= t@.skip(i as int + fl));
        }
        out.push(frag);
        i = i + fl;
        proof {
            assert(char_vec_views(out@) =~= char_vec_views(old_out).push(old_frag));
            assert(char_vec_views(out@).take(base) =~= char_vec_views(old_out).take(base));
            assert(char_vec_views(out@).skip(base) =~= char_vec_views(old_out).skip(base).push(
                old_frag,
            ));
            assert(char_vec_views(old_out).skip(base).push(old_frag) + fragments(
                t@.skip(i as int),
                w as int,
            ) =~= char_vec_views(old_out).skip(base) + (seq![old_frag] + fragments(
                t@.skip(i as int),
                w as int,
            )));
        }
    }
    proof {
        assert(t@.skip(n as int) =~= Seq::<char>::empty());
        assert(fragments(Seq::<char>::empty(), w as int) == Seq::<Seq<char>>::empty());
        assert(char_vec_views(out@).skip(base) + Seq::<Seq<char>>::empty() =~= char_vec_views(
            out@,
        ).skip(base));
        assert(char_vec_views(out@) =~= char_vec_views(out@).take(base) + char_vec_views(
            out@,
        ).skip(base));
    }
}

/// What tokenization yields: a token is never empty and holds no whitespace.
pub open spec fn token_wf(t: Seq<char>) -> bool {
    t.len() > 0 && (forall|j: int| 0 <= j < t.len() ==> !is_space_char(#[trigger] t[j]))
}

/// Every token that tokenization yields is well-formed, as long as the
/// token under construction holds no whitespace.
pub proof fn lemma_tokens_from_wf(s: Seq<char>, cur: Seq<char>)
    requires
        forall|j: int| 0 <= j < cur.len() ==> !is_space_char(#[trigger] cur[j]),
    ensures
        forall|i: int|
            0 <= i < tokens_from(s, cur).len() ==> token_wf(#[trigger] tokens_from(s, cur)[i]),
    decreases s.len(),
{
    if s.len() == 0 {
        if cur.len() > 0 {
            assert(tokens_from(s, cur) == seq![cur]);
            assert(tokens_from(s, cur)[0] == cur);
            assert(token_wf(cur));
        }
    } else {
        let rest = s.drop_first();
        if is_space_char(s[0]) {
            lemma_tokens_from_wf(rest, Seq::empty());
            if cur.len() == 0 {
                assert(cur =~= Seq::<char>::empty());
                assert(tokens_from(s, cur) == tokens_from(rest, Seq::empty()));
            }
            if cur.len() > 0 {
                assert forall|i: int| 0 <= i < tokens_from(s, cur).len() implies token_wf(
                    #[trigger] tokens_from(s, cur)[i],
                ) by {
                    if i > 0 {
                        assert(tokens_from(s, cur)[i] == tokens_from(rest, Seq::empty())[i - 1]);
                    } else {
                        assert(tokens_from(s, cur)[i] == cur);
                    }
                }
            }
        } else {
            assert(forall|j: int|
                0 <= j < cur.push(s[0]).len() ==> !is_space_char(#[trigger] cur.push(s[0])[j]));
            lemma_tokens_from_wf(rest, cur.push(s[0]));
            assert(tokens_from(s, cur) == tokens_from(rest, cur.push(s[0])));
            assert forall|i: int| 0 <= i < tokens_from(s, cur).len() implies token_wf(
                #[trigger] tokens_from(s, cur)[i],
            ) by {
                assert(tokens_from(s, cur)[i] == tokens_from(rest, cur.push(s[0]))[i]);
            }
        }
    }
}

/// Tokenizing `t + s`, where `t` holds no whitespace, first folds all of
/// `t` into the token under construction.
pub proof fn lemma_tokens_from_extend(t: Seq<char>, s: Seq<char>, cur: Seq<char>)
    requires
        forall|j: int| 0 <= j < t.len() ==> !is_space_char(#[trigger] t[j]),
    ensures
        tokens_from(t + s, cur) == tokens_from(s, cur + t),
    decreases t.len(),
{
    if t.len() == 0 {
        assert(t + s =~= s);
        assert(cur + t =~= cur);
    } else {
        assert((t + s)[0] == t[0]);
        assert((t + s).drop_first() =~= t.drop_first() + s);
        assert(forall|j: int|
            0 <= j < t.drop_first().len() ==> !is_space_char(#[trigger] t.drop_first()[j]));
        lemma_tokens_from_extend(t.drop_first(), s, cur.push(t[0]));
        assert(cur.push(t[0]) + t.drop_first() =~= cur + t);
    }
}

/// Reading a joined line back as whitespace-delimited tokens yields exactly
/// its words.
pub proof fn lemma_tokens_of_line_join(ws: Seq<Seq<char>>)
    requires
        forall|i: int| 0 <= i < ws.len() ==> token_wf(#[trigger] ws[i]),
    ensures
        tokens_of(line_join(ws)) == ws,
    decreases ws.len(),
{
    if ws.len() == 0 {
        assert(tokens_of(line_join(ws)) =~= ws);
    } else if ws.len() == 1 {
        assert(token_wf(ws[0]));
        lemma_tokens_from_extend(ws[0], Seq::empty(), Seq::empty());
        assert(ws[0] + Seq::<char>::empty() =~= ws[0]);
        assert(Seq::<char>::empty() + ws[0] =~= ws[0]);
        assert(tokens_of(ws[0]) == tokens_from(Seq::empty(), ws[0]));
        assert(tokens_of(line_join(ws)) =~= ws);
    } else {
        let rest = line_join(ws.drop_first());
        assert(line_join(ws) =~= ws[0] + (seq![' '] + rest));
        assert(token_wf(ws[0]));
        lemma_tokens_from_extend(ws[0], seq![' '] + rest, Seq::empty());
        assert(Seq::<char>::empty() + ws[0] =~= ws[0]);
        assert((seq![' '] + rest)[0] == ' ');
        assert(is_space_char(' '));
        assert((seq![' '] + rest).drop_first() =~= rest);
        assert(tokens_from(seq![' '] + rest, ws[0]) == seq![ws[0]] + tokens_from(
            rest,
            Seq::empty(),
        ));
        assert(forall|i: int|
            0 <= i < ws.drop_first().len() ==> token_wf(#[trigger] ws.drop_first()[i]));
        lemma_tokens_of_line_join(ws.drop_first());
        assert(seq![ws[0]] + ws.drop_first() =~= ws);
    }
}

/// Packing loses and reorders nothing: the words of the packed lines,
/// read line by line, are the current line's words followed by the
/// fragments handed in.
pub proof fn lemma_pack_flatten(frags: Seq<Seq<char>>, w: int, cur: Seq<Seq<char>>)
    ensures
        pack(frags, w, cur).flatten() == cur + frags,
    decreases frags.len(),
{
    if frags.len() == 0 {
        if cur.len() == 0 {
            assert(pack(frags, w, cur).flatten() =~= cur + frags);
        } else {
            assert(seq![cur].drop_first() =~= Seq::<Seq<Seq<char>>>::empty());
            assert(Seq::<Seq<Seq<char>>>::empty().flatten() == Seq::<Seq<char>>::empty());
            assert(seq![cur].first() == cur);
            assert(seq![cur].flatten() =~= cur);
            assert(cur + frags =~= cur);
        }
    } else if cur.len() == 0 {
        lemma_pack_flatten(frags.drop_first(), w, seq![frags[0]]);
        assert(seq![frags[0]] + frags.drop_first() =~= frags);
        assert(cur + frags =~= frags);
    } else if line_columns(cur) + char_columns(' ') + str_columns(frags[0]) <= w {
        lemma_pack_flatten(frags.drop_first(), w, cur.push(frags[0]));
        assert(cur.push(frags[0]) + frags.drop_first() =~= cur + frags);
    } else {
        lemma_pack_flatten(frags.drop_first(), w, seq![frags[0]]);
        let tail = pack(frags.drop_first(), w, seq![frags[0]]);
        assert((seq![cur] + tail).first() == cur);
        assert((seq![cur] + tail).drop_first() =~= tail);
        assert((seq![cur] + tail).flatten() == cur + tail.flatten());
        assert(cur + (seq![frags[0]] + frags.drop_first()) =~= cur + frags);
    }
}

/// Every word of every packed line is a well-formed token, when the
/// fragments and the current line's words are.
pub proof fn lemma_pack_wf(frags: Seq<Seq<char>>, w: int, cur: Seq<Seq<char>>)
    requires
        forall|i: int| 0 <= i < frags.len() ==> token_wf(#[trigger] frags[i]),
        forall|i: int| 0 <= i < cur.len() ==> token_wf(#[trigger] cur[i]),
    ensures
        forall|i: int, j: int|
            0 <= i < pack(frags, w, cur).len() && 0 <= j < pack(frags, w, cur)[i].len()
                ==> token_wf(#[trigger] pack(frags, w, cur)[i][j]),
    decreases frags.len(),
{
    if frags.len() == 0 {
        if cur.len() > 0 {
            assert forall|i: int, j: int|
                0 <= i < pack(frags, w, cur).len() && 0 <= j < pack(frags, w, cur)[i].len()
                    implies token_wf(#[trigger] pack(frags, w, cur)[i][j]) by {
                assert(pack(frags, w, cur)[i] == cur);
            }
        }
    } else if cur.len() == 0 {
        assert(forall|i: int|
            0 <= i < seq![frags[0]].len() ==> token_wf(#[trigger] seq![frags[0]][i]));
        assert(forall|i: int|
            0 <= i < frags.drop_first().len() ==> token_wf(#[trigger] frags.drop_first()[i]));
        lemma_pack_wf(frags.drop_first(), w, seq![frags[0]]);
        assert forall|i: int, j: int|
            0 <= i < pack(frags, w, cur).len() && 0 <= j < pack(frags, w, cur)[i].len()
                implies token_wf(#[trigger] pack(frags, w, cur)[i][j]) by {
            assert(pack(frags, w, cur)[i][j] == pack(frags.drop_first(), w, seq![frags[0]])[i][j]);
        }
    } else if line_columns(cur) + char_columns(' ') + str_columns(frags[0]) <= w {
        assert(forall|i: int|
            0 <= i < cur.push(frags[0]).len() ==> token_wf(#[trigger] cur.push(frags[0])[i]));
        assert(forall|i: int|
            0 <= i < frags.drop_first().len() ==> token_wf(#[trigger] frags.drop_first()[i]));
        lemma_pack_wf(frags.drop_first(), w, cur.push(frags[0]));
        assert forall|i: int, j: int|
            0 <= i < pack(frags, w, cur).len() && 0 <= j < pack(frags, w, cur)[i].len()
                implies token_wf(#[trigger] pack(frags, w, cur)[i][j]) by {
            assert(pack(frags, w, cur)[i][j] == pack(
                frags.drop_first(),
                w,
                cur.push(frags[0]),
            )[i][j]);
        }
    } else {
        assert(forall|i: int|
            0 <= i < seq![frags[0]].len() ==> token_wf(#[trigger] seq![frags[0]][i]));
        assert(forall|i: int|
            0 <= i < frags.drop_first().len() ==> token_wf(#[trigger] frags.drop_first()[i]));
        lemma_pack_wf(frags.drop_first(), w, seq![frags[0]]);
        let tail = pack(frags.drop_first(), w, seq![frags[0]]);
        assert forall|i: int, j: int|
            0 <= i < pack(frags, w, cur).len() && 0 <= j < pack(frags, w, cur)[i].len()
                implies token_wf(#[trigger] pack(frags, w, cur)[i][j]) by {
            if i == 0 {
                assert(pack(frags, w, cur)[i] == cur);
            } else {
                assert(pack(frags, w, cur)[i] == tail[i - 1]);
            }
        }
    }
}

/// A token no wider than the width fits whole: its fit length is its length.
pub proof fn lemma_fit_whole(t: Seq<char>, w: int)
    requires
        str_columns(t) <= w,
    ensures
        fit_len(t, w) == t.len(),
    decreases t.len(),
{
    if t.len() > 0 {
        let rest = t.drop_first();
        assert(t =~= seq![t[0]] + rest);
        lemma_str_columns_concat(seq![t[0]], rest);
        crate::text::lemma_str_columns_singleton(t[0]);
        lemma_str_columns_nonneg(rest);
        lemma_fit_whole(rest, w - char_columns(t[0]));
    }
}

/// A token no wider than the width is its own single fragment.
pub proof fn lemma_fragments_whole(t: Seq<char>, w: int)
    requires
        str_columns(t) <= w,
        t.len() > 0,
    ensures
        fragments(t, w) == seq![t],
{
    lemma_fit_whole(t, w);
    assert(frag_len(t, w) == t.len());
    assert(t.take(t.len() as int) =~= t);
    assert(t.skip(t.len() as int) =~= Seq::<char>::empty());
    assert(fragments(Seq::<char>::empty(), w) == Seq::<Seq<char>>::empty());
    assert(fragments(t, w) =~= seq![t]);
}

/// When no token is wider than the width, cutting changes nothing: the
/// fragments are exactly the tokens.
pub proof fn lemma_fragments_of_tokens_whole(ts: Seq<Seq<char>>, w: int)
    requires
        forall|i: int|
            0 <= i < ts.len() ==> str_columns(#[trigger] ts[i]) <= w && ts[i].len() > 0,
    ensures
        fragments_of_tokens(ts, w) == ts,
    decreases ts.len(),
{
    if ts.len() == 0 {
        assert(fragments_of_tokens(ts, w) =~= ts);
    } else {
        lemma_fragments_whole(ts[0], w);
        assert(forall|i: int|
            0 <= i < ts.drop_first().len() ==> str_columns(#[trigger] ts.drop_first()[i]) <= w
                && ts.drop_first()[i].len() > 0);
        lemma_fragments_of_tokens_whole(ts.drop_first(), w);
        assert(seq![ts[0]] + ts.drop_first() =~= ts);
    }
}

/// Round-trip wrapping: for a text none of whose tokens is wider than the
/// wrap width, reading the wrapped lines back as whitespace-delimited
/// tokens, line by line and in order, yields exactly the tokens of the
/// original text — wrapping neither loses, splits, merges nor reorders a
/// token, it only chooses the line breaks.
pub proof fn lemma_wrap_round_trip(s: Seq<char>, w: int)
    requires
        forall|i: int| 0 <= i < tokens_of(s).len() ==> str_columns(#[trigger] tokens_of(s)[i]) <= w,
    ensures
        wrap_lines(s, w).map_values(|l: Seq<char>| tokens_of(l)).flatten() == tokens_of(s),
{
    let ts = tokens_of(s);
    lemma_tokens_from_wf(s, Seq::empty());
    assert(forall|i: int| 0 <= i < ts.len() ==> token_wf(#[trigger] ts[i]));
    lemma_fragments_of_tokens_whole(ts, w);
    let packed = pack(ts, w, Seq::empty());
    lemma_pack_flatten(ts, w, Seq::empty());
    assert(Seq::<Seq<char>>::empty() + ts =~= ts);
    lemma_pack_wf(ts, w, Seq::empty());
    assert(wrap_lines(s, w) == joined_lines(packed));
    let relined = wrap_lines(s, w).map_values(|l: Seq<char>| tokens_of(l));
    assert forall|i: int| 0 <= i < packed.len() implies relined[i] == packed[i] by {
        assert(forall|j: int| 0 <= j < packed[i].len() ==> token_wf(#[trigger] packed[i][j]));
        lemma_tokens_of_line_join(packed[i]);
        assert(joined_lines(packed)[i] == line_join(packed[i]));
        assert(relined[i] == tokens_of(line_join(packed[i])));
    }
    assert(relined =~= packed);
    assert(relined.flatten() == ts);
}

/// Packs fragments greedily into joined lines of at most `w` columns.
pub(crate) fn pack_fragments(frags: &Vec<Vec<char>>, w: usize) -> (r: Vec<Vec<char>>)
    requires
        forall|i: int| 0 <= i < frags@.len() ==> str_columns(frags@[i]@) <= usize::MAX,
    ensures
        char_vec_views(r@) == joined_lines(pack(char_vec_views(frags@), w as int, Seq::empty())),
        forall|i: int| 0 <= i < r@.len() ==> str_columns(r@[i]@) <= usize::MAX,
{
    let m: usize = frags.len();
    let ghost all = char_vec_views(frags@);
    let mut out: Vec<Vec<char>> = Vec::new();
    let mut cur_line: Vec<char> = Vec::new();
    let mut cur_cols: usize = 0;
    let mut cur_n: usize = 0;
    let ghost mut cur_ws: Seq<Seq<char>> = Seq::empty();
    let sp: usize = crate::text::char_display_width(' ');
    let mut k: usize = 0;
    proof {
        assert(all.skip(0) =~= all);
        assert(char_vec_views(out@) =~= Seq::<Seq<char>>::empty());
        assert(Seq::<Seq<char>>::empty() + joined_lines(pack(all, w as int, cur_ws))
            =~= joined_lines(pack(all, w as int, cur_ws)));
    }
    while k < m
        invariant
            k <= m,
            m == frags@.len(),
            all == char_vec_views(frags@),
            forall|i: int| 0 <= i < frags@.len() ==> str_columns(frags@[i]@) <= usize::MAX,
            sp == char_columns(' '),
            cur_line@ == line_join(cur_ws),
            cur_cols == line_columns(cur_ws),
            cur_n == cur_ws.len(),
            cur_n <= k,
            joined_lines(pack(all, w as int, Seq::empty())) == char_vec_views(out@)
                + joined_lines(pack(all.skip(k as int), w as int, cur_ws)),
            forall|i: int| 0 <= i < out@.len() ==> str_columns(out@[i]@) <= usize::MAX,
        decreases m - k,
    {
        let ghost rem = all.skip(k as int);
        proof {
            assert(rem[0] == frags@[k as int]@);
            assert(rem.drop_first() =~= all.skip(k as int + 1));
        }
        let fw: usize = crate::text::display_width(&frags[k]);
        let fits: bool = if cur_n == 0 {
            false
        } else if sp > w {
            false
        } else if cur_cols > w - sp {
            false
        } else if fw > w - sp - cur_cols {
            false
        } else {
            true
        };
        if cur_n == 0 {
            proof {
                assert(cur_ws =~= Seq::<Seq<char>>::empty());
                assert(pack(rem, w as int, cur_ws) == pack(
                    rem.drop_first(),
                    w as int,
                    seq![rem[0]],
                ));
            }
            cur_line = Vec::new();
            append_chars(&mut cur_line, &frags[k]);
            cur_cols = fw;
            cur_n = 1;
            proof {
                cur_ws = seq![rem[0]];
                assert(Seq::<char>::empty() + frags@[k as int]@ =~= frags@[k as int]@);
                assert(cur_ws[0] == frags@[k as int]@);
                assert(line_join(cur_ws) == frags@[k as int]@);
                assert(line_columns(cur_ws) == str_columns(frags@[k as int]@));
            }
        } else if fits {
            proof {
                assert(line_columns(cur_ws) + char_columns(' ') + str_columns(rem[0])
                    <= w);
                assert(pack(rem, w as int, cur_ws) == pack(
                    rem.drop_first(),
                    w as int,
                    cur_ws.push(rem[0]),
                ));
            }
            cur_line.push(' ');
            append_chars(&mut cur_line, &frags[k]);
            cur_cols = cur_cols + sp + fw;
            cur_n = cur_n + 1;
            proof {
                lemma_line_join_push(cur_ws, rem[0]);
                lemma_line_columns_push(cur_ws, rem[0]);
                let ws2 = cur_ws.push(rem[0]);
                cur_ws = ws2;
                assert(cur_line@ =~= line_join(ws2));
            }
        } else {
            proof {
                assert(!(line_columns(cur_ws) + char_columns(' ') + str_columns(rem[0])
                    <= w));
                assert(pack(rem, w as int, cur_ws) == seq![cur_ws] + pack(
                    rem.drop_first(),
                    w as int,
                    seq![rem[0]],
                ));
                lemma_line_join_columns(cur_ws);
            }
            let ghost old_out = out@;
            let ghost flushed = cur_line@;
            out.push(cur_line);
            cur_line = Vec::new();
            append_chars(&mut cur_line, &frags[k]);
            cur_cols = fw;
            cur_n = 1;
            proof {
                let old_ws = cur_ws;
                cur_ws = seq![frags@[k as int]@];
                assert(Seq::<char>::empty() + frags@[k as int]@ =~= frags@[k as int]@);
                assert(cur_ws[0] == frags@[k as int]@);
                assert(line_join(cur_ws) == frags@[k as int]@);
                assert(line_columns(cur_ws) == str_columns(frags@[k as int]@));
                assert(char_vec_views(out@) =~= char_vec_views(old_out).push(flushed));
                assert(joined_lines(seq![old_ws] + pack(rem.drop_first(), w as int, cur_ws))
                    =~= seq![line_join(old_ws)] + joined_lines(
                    pack(rem.drop_first(), w as int, cur_ws),
                ));
                assert(char_vec_views(old_out) + (seq![flushed] + joined_lines(
                    pack(rem.drop_first(), w as int, cur_ws),
                )) =~= char_vec_views(out@) + joined_lines(
                    pack(rem.drop_first(), w as int, cur_ws),
                ));
            }
        }
        k = k + 1;
    }
    proof {
        assert(all.skip(m as int) =~= Seq::<Seq<Seq<char>>>::empty().map_values(
            |ws: Seq<Seq<char>>| line_join(ws),
        ).map_values(|l: Seq<char>| l));
        assert(all.skip(m as int) =~= Seq::<Seq<char>>::empty());
    }
    if cur_n > 0 {
        proof {
            assert(pack(all.skip(m as int), w as int, cur_ws) == seq![cur_ws]);
            lemma_line_join_columns(cur_ws);
        }
        let ghost old_out = out@;
        let ghost flushed = cur_line@;
        out.push(cur_line);
        proof {
            assert(char_vec_views(out@) =~= char_vec_views(old_out).push(flushed));
            assert(joined_lines(seq![cur_ws]) =~= seq![line_join(cur_ws)]);
            assert(char_vec_views(old_out) + seq![flushed] =~= char_vec_views(out@));
        }
    } else {
        proof {
            assert(cur_ws =~= Seq::<Seq<char>>::empty());
            assert(pack(all.skip(m as int), w as int, cur_ws) == Seq::<Seq<Seq<char>>>::empty());
            assert(joined_lines(Seq::<Seq<Seq<char>>>::empty()) =~= Seq::<Seq<char>>::empty());
            assert(char_vec_views(out@) + Seq::<Seq<char>>::empty() =~= char_vec_views(out@));
        }
    }
    out
}

/// Word-wraps `s` to `w` display columns: whitespace-delimited tokens packed
/// greedily into lines, a token wider than `w` cut at column boundaries.
pub(crate) fn wrap_text(s: &Vec<char>, w: usize) -> (lines: Vec<Vec<char>>)
    requires
        str_columns(s@) <= usize::MAX,
    ensures
        char_vec_views(lines@) == wrap_lines(s@, w as int),
        forall|i: int| 0 <= i < lines@.len() ==> str_columns(lines@[i]@) <= usize::MAX,
{
    let tokens: Vec<Vec<char>> = tokenize(s);
    let ghost tviews = char_vec_views(tokens@);
    proof {
        lemma_tokens_columns(s@);
    }
    let mut frags: Vec<Vec<char>> = Vec::new();
    let mut idx: usize = 0;
    proof {
        assert(tviews.skip(0) =~= tviews);
        assert(char_vec_views(frags@) =~= Seq::<Seq<char>>::empty());
        assert(Seq::<Seq<char>>::empty() + fragments_of_tokens(tviews, w as int)
            =~= fragments_of_tokens(tviews, w as int));
    }
    while idx < tokens.len()
        invariant
            idx <= tokens@.len(),
            tviews == char_vec_views(tokens@),
            str_columns(s@) <= usize::MAX,
            forall|i: int| 0 <= i < tviews.len() ==> str_columns(tviews[i]) <= str_columns(s@),
            fragments_of_tokens(tviews, w as int) == char_vec_views(frags@)
                + fragments_of_tokens(tviews.skip(idx as int), w as int),
        decreases tokens@.len() - idx,
    {
        let ghost rem = tviews.skip(idx as int);
        let ghost old_frags = char_vec_views(frags@);
        proof {
            assert(rem[0] == tviews[idx as int]);
            assert(rem.drop_first() =~= tviews.skip(idx as int + 1));
            assert(tviews[idx as int] == tokens@[idx as int]@);
            crate::text::lemma_str_columns_nonneg(tokens@[idx as int]@);
        }
        fragment_push(&mut frags, &tokens[idx], w);
        idx = idx + 1;
        proof {
            assert(old_frags + (fragments(rem[0], w as int) + fragments_of_tokens(
                rem.drop_first(),
                w as int,
            )) =~= char_vec_views(frags@) + fragments_of_tokens(
                tviews.skip(idx as int),
                w as int,
            ));
        }
    }
    proof {
        assert(tviews.skip(tokens@.len() as int) =~= Seq::<Seq<char>>::empty());
        assert(fragments_of_tokens(Seq::<Seq<char>>::empty(), w as int)
            == Seq::<Seq<char>>::empty());
        assert(char_vec_views(frags@) + Seq::<Seq<char>>::empty() =~= char_vec_views(frags@));
        assert(char_vec_views(frags@) == fragments_of_tokens(tviews, w as int));
        lemma_fragments_of_tokens_columns(tviews, w as int, str_columns(s@));
        assert forall|i: int| 0 <= i < frags@.len() implies str_columns(frags@[i]@)
            <= usize::MAX by {
            assert(char_vec_views(frags@)[i] == frags@[i]@);
        }
    }
    let lines: Vec<Vec<char>> = pack_fragments(&frags, w);
    lines
}

} // verus!
