//! Text layout for the three panes: fitting, clipping, padding and wrapping.
use vstd::prelude::*;
use crate::chars::{
    is_control, is_whitespace, push_char, spec_is_control, spec_is_whitespace, string_from_chars,
    to_chars,
};

verus! {

broadcast use vstd::seq_lib::group_seq_properties;

/// `n` blanks.
pub open spec fn spaces(n: nat) -> Seq<char> {
    Seq::new(n, |i: int| ' ')
}

/// `t` followed by blanks up to `w` characters; `t` itself when it is already that long.
pub open spec fn padded(t: Seq<char>, w: nat) -> Seq<char> {
    if t.len() < w {
        t + spaces((w - t.len()) as nat)
    } else {
        t
    }
}

/// A cell of exactly `w` characters: `t` padded with blanks, or cut to `w - 1`
/// characters followed by an ellipsis when it is longer than `w`.
pub open spec fn fitted(t: Seq<char>, w: nat) -> Seq<char> {
    if w == 0 {
        Seq::empty()
    } else if t.len() > w {
        t.take(w - 1).push('…')
    } else {
        padded(t, w)
    }
}

/// `t` when it has at most `w` characters, otherwise its first `w - 1`
/// characters followed by a dot.
pub open spec fn clipped(t: Seq<char>, w: nat) -> Seq<char> {
    if w == 0 {
        Seq::empty()
    } else if t.len() > w {
        t.take(w - 1).push('.')
    } else {
        t
    }
}

/// Pads `text` with blanks to at least `width` characters.
pub fn pad_to_width(text: String, width: usize) -> (r: String)
    ensures
        r@ == padded(text@, width as nat),
{
    let mut text = text;
    let n = text.as_str().unicode_len();
    if n < width {
        let ghost start = text@;
        let k = width - n;
        for i in 0..k
            invariant
                text@ == start + spaces(i as nat),
        {
            push_char(&mut text, ' ');
            assert(start + spaces((i + 1) as nat) == (start + spaces(i as nat)).push(' '));
        }
    }
    text
}

/// Fits `text` into a cell of exactly `width` characters (see `fitted`).
pub fn fit_text(text: &str, width: usize) -> (r: String)
    ensures
        r@ == fitted(text@, width as nat),
        r@.len() == width,
{
    if width == 0 {
        return String::new();
    }
    let cs = to_chars(text);
    if cs.len() > width {
        let mut r = String::new();
        let mut i: usize = 0;
        while i < width - 1
            invariant
                0 < width < cs@.len(),
                i <= width - 1,
                r@ == cs@.take(i as int),
            decreases width - 1 - i,
        {
            assert(cs@.take(i + 1) == cs@.take(i as int).push(cs@[i as int]));
            push_char(&mut r, cs[i]);
            i = i + 1;
        }
        push_char(&mut r, '…');
        r
    } else {
        let r = pad_to_width(string_from_chars(&cs), width);
        r
    }
}

/// Clips `text` to at most `width` characters (see `clipped`).
pub fn clip_text(text: &str, width: usize) -> (r: String)
    ensures
        r@ == clipped(text@, width as nat),
        r@.len() <= width,
{
    if width == 0 {
        return String::new();
    }
    let cs = to_chars(text);
    if cs.len() > width {
        let mut r = String::new();
        let mut i: usize = 0;
        while i < width - 1
            invariant
                0 < width < cs@.len(),
                i <= width - 1,
                r@ == cs@.take(i as int),
            decreases width - 1 - i,
        {
            assert(cs@.take(i + 1) == cs@.take(i as int).push(cs@[i as int]));
            push_char(&mut r, cs[i]);
            i = i + 1;
        }
        push_char(&mut r, '.');
        r
    } else {
        string_from_chars(&cs)
    }
}

/// The character that replaces `c` in a preview: line breaks and tabs stay,
/// other control characters become blanks.
pub open spec fn sanitized_char(c: char) -> char {
    if c == '\n' || c == '\r' || c == '\t' {
        c
    } else if spec_is_control(c) {
        ' '
    } else {
        c
    }
}

/// Replaces control characters other than line breaks and tabs with blanks.
pub fn sanitize_preview_text(input: &str) -> (r: String)
    ensures
        r@ == input@.map_values(|c: char| sanitized_char(c)),
        r@.len() == input@.len(),
        forall|i: int|
            0 <= i < r@.len() ==> !spec_is_control(#[trigger] r@[i]) || r@[i] == '\n' || r@[i] == '\r'
                || r@[i] == '\t',
{
    let cs = to_chars(input);
    let mut r = String::new();
    let n = cs.len();
    for i in 0..n
        invariant
            n == cs@.len(),
            cs@ == input@,
            r@ == cs@.take(i as int).map_values(|c: char| sanitized_char(c)),
    {
        let c = cs[i];
        let d = if c == '\n' || c == '\r' || c == '\t' {
            c
        } else if is_control(c) {
            ' '
        } else {
            c
        };
        assert(cs@.take(i + 1) == cs@.take(i as int).push(c));
        push_char(&mut r, d);
    }
    assert(cs@.take(n as int) == cs@);
    r
}

/// The pieces of `s` between the characters that satisfy `sep`
/// (`str::split` with a character predicate); always at least one piece.
pub open spec fn split_on(s: Seq<char>, sep: spec_fn(char) -> bool) -> Seq<Seq<char>>
    decreases s.len(),
{
    if s.len() == 0 {
        seq![Seq::empty()]
    } else {
        let p = split_on(s.drop_last(), sep);
        if sep(s.last()) {
            p.push(Seq::empty())
        } else {
            p.update(p.len() - 1, p.last().push(s.last()))
        }
    }
}

pub proof fn lemma_split_on_nonempty(s: Seq<char>, sep: spec_fn(char) -> bool)
    ensures
        split_on(s, sep).len() >= 1,
    decreases s.len(),
{
    if s.len() > 0 {
        lemma_split_on_nonempty(s.drop_last(), sep);
    }
}

pub open spec fn is_ws(c: char) -> bool {
    spec_is_whitespace(c)
}

pub open spec fn is_newline(c: char) -> bool {
    c == '\n'
}

pub open spec fn nonempty(w: Seq<char>) -> bool {
    w.len() > 0
}

pub open spec fn ws_sep() -> spec_fn(char) -> bool {
    |c: char| is_ws(c)
}

pub open spec fn nl_sep() -> spec_fn(char) -> bool {
    |c: char| is_newline(c)
}

pub open spec fn nonempty_pred() -> spec_fn(Seq<char>) -> bool {
    |w: Seq<char>| nonempty(w)
}

pub open spec fn strip_cr_fn() -> spec_fn(Seq<char>) -> Seq<char> {
    |l: Seq<char>| strip_cr(l)
}

/// `str::split_whitespace`: the non-empty pieces between whitespace characters.
pub open spec fn words(s: Seq<char>) -> Seq<Seq<char>> {
    split_on(s, ws_sep()).filter(nonempty_pred())
}

/// A line without the carriage return that ended it.
pub open spec fn strip_cr(l: Seq<char>) -> Seq<char> {
    if l.len() > 0 && l.last() == '\r' {
        l.drop_last()
    } else {
        l
    }
}

/// `str::lines`: the pieces between line feeds, each without a final carriage
/// return; the text after the last line feed counts only when it is not empty
/// (and keeps any carriage return, as it ends no line).
pub open spec fn lines(s: Seq<char>) -> Seq<Seq<char>> {
    let p = split_on(s, nl_sep());
    let body = p.drop_last().map_values(strip_cr_fn());
    if p.last().len() > 0 {
        body.push(p.last())
    } else {
        body
    }
}

pub open spec fn char_views(v: Seq<Vec<char>>) -> Seq<Seq<char>> {
    v.map_values(|w: Vec<char>| w@)
}

pub open spec fn string_views(v: Seq<String>) -> Seq<Seq<char>> {
    v.map_values(|w: String| w@)
}

/// Splits `cs` into its whitespace-separated words.
pub fn split_words(cs: &Vec<char>) -> (r: Vec<Vec<char>>)
    ensures
        char_views(r@) == words(cs@),
{
    let mut r: Vec<Vec<char>> = Vec::new();
    let mut cur: Vec<char> = Vec::new();
    let n = cs.len();
    for i in 0..n
        invariant
            n == cs@.len(),
            split_on(cs@.take(i as int), ws_sep()).len() >= 1,
            cur@ == split_on(cs@.take(i as int), ws_sep()).last(),
            char_views(r@) == split_on(cs@.take(i as int), ws_sep()).drop_last().filter(nonempty_pred()),
    {
        let c = cs[i];
        let ghost p = split_on(cs@.take(i as int), ws_sep());
        assert(cs@.take(i + 1).drop_last() == cs@.take(i as int));
        assert(cs@.take(i + 1).last() == c);
        if is_whitespace(c) {
            let ghost before = r@;
            if cur.len() > 0 {
                r.push(cur);
                assert(char_views(r@) == char_views(before).push(p.last()));
            }
            assert(p.push(Seq::empty()).drop_last() == p);
            assert(p == p.drop_last().push(p.last()));
            proof {
                p.drop_last().lemma_filter_push(p.last(), nonempty_pred());
            }
            cur = Vec::new();
        } else {
            cur.push(c);
            assert(p.update(p.len() - 1, p.last().push(c)).drop_last() == p.drop_last());
        }
    }
    assert(cs@.take(n as int) == cs@);
    let ghost p = split_on(cs@, ws_sep());
    assert(p == p.drop_last().push(p.last()));
    proof {
        p.drop_last().lemma_filter_push(p.last(), nonempty_pred());
    }
    let ghost before = r@;
    if cur.len() > 0 {
        r.push(cur);
        assert(char_views(r@) == char_views(before).push(p.last()));
    }
    r
}

/// Splits `cs` into lines (see `lines`).
pub fn split_lines(cs: &Vec<char>) -> (r: Vec<Vec<char>>)
    ensures
        char_views(r@) == lines(cs@),
{
    let mut r: Vec<Vec<char>> = Vec::new();
    let mut cur: Vec<char> = Vec::new();
    let n = cs.len();
    for i in 0..n
        invariant
            n == cs@.len(),
            split_on(cs@.take(i as int), nl_sep()).len() >= 1,
            cur@ == split_on(cs@.take(i as int), nl_sep()).last(),
            char_views(r@) == split_on(cs@.take(i as int), nl_sep()).drop_last().map_values(strip_cr_fn()),
    {
        let c = cs[i];
        let ghost p = split_on(cs@.take(i as int), nl_sep());
        assert(cs@.take(i + 1).drop_last() == cs@.take(i as int));
        assert(cs@.take(i + 1).last() == c);
        if c == '\n' {
            let ghost before = r@;
            let mut line = cur;
            let k = line.len();
            if k > 0 && line[k - 1] == '\r' {
                line.pop();
            }
            assert(line@ == strip_cr(p.last()));
            r.push(line);
            assert(char_views(r@) == char_views(before).push(strip_cr(p.last())));
            assert(p.push(Seq::empty()).drop_last() == p);
            assert(p == p.drop_last().push(p.last()));
            assert(p.map_values(strip_cr_fn()) == p.drop_last().map_values(strip_cr_fn()).push(strip_cr(p.last())));
            cur = Vec::new();
        } else {
            cur.push(c);
            assert(p.update(p.len() - 1, p.last().push(c)).drop_last() == p.drop_last());
        }
    }
    assert(cs@.take(n as int) == cs@);
    let ghost before = r@;
    if cur.len() > 0 {
        r.push(cur);
        assert(char_views(r@) == char_views(before).push(split_on(cs@, nl_sep()).last()));
    }
    r
}

/// The first `n` characters of `s` (all of `s` when it is shorter).
pub open spec fn prefix(s: Seq<char>, n: nat) -> Seq<char> {
    if s.len() <= n {
        s
    } else {
        s.take(n as int)
    }
}

/// One step of greedy word wrapping at width `w`: the word joins the current
/// line when it fits, otherwise the current line is closed and the word (cut
/// to `w` characters) starts the next one.
pub open spec fn wrap_step(w: nat, st: (Seq<Seq<char>>, Seq<char>), word: Seq<char>) -> (
    Seq<Seq<char>>,
    Seq<char>,
) {
    let acc = st.0;
    let cur = st.1;
    let cand = if cur.len() == 0 {
        word
    } else {
        cur + seq![' '] + word
    };
    if cand.len() > w {
        (
            if cur.len() > 0 {
                acc.push(cur)
            } else {
                acc
            },
            prefix(word, w),
        )
    } else {
        (acc, cand)
    }
}

pub open spec fn wrap_step_fn(w: nat) -> spec_fn((Seq<Seq<char>>, Seq<char>), Seq<char>) -> (Seq<Seq<char>>, Seq<char>) {
    |st: (Seq<Seq<char>>, Seq<char>), word: Seq<char>| wrap_step(w, st, word)
}

/// The wrapped lines of one source line, appended to `acc`: an empty line stays
/// an empty line; otherwise its words are packed greedily.
pub open spec fn wrap_line(w: nat, acc: Seq<Seq<char>>, line: Seq<char>) -> Seq<Seq<char>> {
    if line.len() == 0 {
        acc.push(Seq::empty())
    } else {
        let st = words(line).fold_left((acc, Seq::<char>::empty()), wrap_step_fn(w));
        if st.1.len() > 0 {
            st.0.push(st.1)
        } else {
            st.0
        }
    }
}

pub open spec fn wrap_line_fn(w: nat) -> spec_fn(Seq<Seq<char>>, Seq<char>) -> Seq<Seq<char>> {
    |acc: Seq<Seq<char>>, l: Seq<char>| wrap_line(w, acc, l)
}

/// `text` wrapped at `width` (at least one) characters per line; never empty.
pub open spec fn wrapped(text: Seq<char>, width: nat) -> Seq<Seq<char>> {
    let w: nat = if width == 0 {
        1
    } else {
        width
    };
    let ls = lines(text).fold_left(Seq::<Seq<char>>::empty(), wrap_line_fn(w));
    if ls.len() == 0 {
        seq![Seq::empty()]
    } else {
        ls
    }
}

pub open spec fn all_within(ls: Seq<Seq<char>>, w: nat) -> bool {
    forall|i: int| 0 <= i < ls.len() ==> #[trigger] ls[i].len() <= w
}

fn wrap_one_line(w: usize, acc: &mut Vec<Vec<char>>, line: &Vec<char>)
    requires
        w >= 1,
        all_within(char_views(old(acc)@), w as nat),
    ensures
        char_views(final(acc)@) == wrap_line(w as nat, char_views(old(acc)@), line@),
        all_within(char_views(final(acc)@), w as nat),
{
    let ghost a0 = char_views(acc@);
    if line.len() == 0 {
        acc.push(Vec::new());
        assert(char_views(acc@) == a0.push(Seq::<char>::empty()));
        return;
    }
    let ws = split_words(line);
    let ghost wsv = char_views(ws@);
    let mut cur: Vec<char> = Vec::new();
    let n = ws.len();
    for k in 0..n
        invariant
            n == ws@.len(),
            wsv == char_views(ws@),
            wsv == words(line@),
            w >= 1,
            (char_views(acc@), cur@) == wsv.take(k as int).fold_left((a0, Seq::<char>::empty()), wrap_step_fn(w as nat)),
            all_within(char_views(acc@), w as nat),
            cur@.len() <= w,
    {
        assert(wsv.take(k + 1).drop_last() == wsv.take(k as int));
        let word = &ws[k];
        let ghost before = char_views(acc@);
        let mut cand: Vec<char> = Vec::new();
        if cur.len() > 0 {
            cand = cur.clone();
            cand.push(' ');
        }
        let m = word.len();
        for j in 0..m
            invariant
                m == word@.len(),
                cand@ == (if cur@.len() == 0 { Seq::<char>::empty() } else { cur@ + seq![' '] }) + word@.take(j as int),
        {
            assert(word@.take(j + 1) == word@.take(j as int).push(word@[j as int]));
            cand.push(word[j]);
        }
        assert(word@.take(m as int) == word@);
        assert(cur@.len() == 0 ==> Seq::<char>::empty() + word@ == word@);
        if cand.len() > w {
            if cur.len() > 0 {
                acc.push(cur);
                assert(char_views(acc@) == before.push(char_views(acc@).last()));
            }
            let mut next: Vec<char> = Vec::new();
            let lim = if m < w { m } else { w };
            for j in 0..lim
                invariant
                    lim <= m,
                    m == word@.len(),
                    next@ == word@.take(j as int),
            {
                assert(word@.take(j + 1) == word@.take(j as int).push(word@[j as int]));
                next.push(word[j]);
            }
            assert(word@.take(lim as int) == prefix(word@, w as nat));
            cur = next;
        } else {
            cur = cand;
        }
    }
    assert(wsv.take(n as int) == wsv);
    if cur.len() > 0 {
        let ghost before = char_views(acc@);
        acc.push(cur);
        assert(char_views(acc@) == before.push(char_views(acc@).last()));
    }
}

/// Turns lines of characters into strings.
pub fn strings_from_char_lines(acc: &Vec<Vec<char>>) -> (r: Vec<String>)
    ensures
        string_views(r@) == char_views(acc@),
{
    let mut r: Vec<String> = Vec::new();
    let m = acc.len();
    for k in 0..m
        invariant
            m == acc@.len(),
            string_views(r@) == char_views(acc@).take(k as int),
    {
        let s = string_from_chars(&acc[k]);
        assert(char_views(acc@).take(k + 1) == char_views(acc@).take(k as int).push(acc@[k as int]@));
        r.push(s);
    }
    assert(char_views(acc@).take(m as int) == char_views(acc@));
    r
}

/// Wraps `text` into lines of at most `width` (at least one) characters.
pub fn wrap_text(text: &str, width: usize) -> (r: Vec<String>)
    ensures
        string_views(r@) == wrapped(text@, width as nat),
        r@.len() >= 1,
        forall|i: int| 0 <= i < r@.len() ==> #[trigger] r@[i]@.len() <= if width == 0 {
            1
        } else {
            width
        },
{
    let w: usize = if width == 0 {
        1
    } else {
        width
    };
    let cs = to_chars(text);
    let ls = split_lines(&cs);
    let ghost lsv = char_views(ls@);
    let mut acc: Vec<Vec<char>> = Vec::new();
    let n = ls.len();
    for k in 0..n
        invariant
            n == ls@.len(),
            lsv == char_views(ls@),
            w >= 1,
            char_views(acc@) == lsv.take(k as int).fold_left(Seq::<Seq<char>>::empty(), wrap_line_fn(w as nat)),
            all_within(char_views(acc@), w as nat),
    {
        assert(lsv.take(k + 1).drop_last() == lsv.take(k as int));
        wrap_one_line(w, &mut acc, &ls[k]);
    }
    assert(lsv.take(n as int) == lsv);
    if acc.len() == 0 {
        acc.push(Vec::new());
        assert(char_views(acc@) == seq![Seq::<char>::empty()]);
    }
    let r = strings_from_char_lines(&acc);
    proof {
        let sv = string_views(r@);
        let cv = char_views(acc@);
        assert(sv.len() == r@.len());
        assert(all_within(cv, w as nat));
        assert forall|i: int| 0 <= i < r@.len() implies #[trigger] r@[i]@.len() <= w by {
            assert(sv[i] == r@[i]@);
            assert(cv[i].len() <= w);
        }
    }
    r
}

/// The words of each line, one line after another (`flat_map` of
/// `split_whitespace` over the lines).
pub open spec fn flat_words(ls: Seq<Seq<char>>) -> Seq<Seq<char>>
    decreases ls.len(),
{
    if ls.len() == 0 {
        Seq::empty()
    } else {
        flat_words(ls.drop_last()) + words(ls.last())
    }
}

/// A word as `words` gives it: not empty, and without whitespace.
pub open spec fn is_word(w: Seq<char>) -> bool {
    w.len() > 0 && forall|i: int| 0 <= i < w.len() ==> !is_ws(#[trigger] w[i])
}

/// Every word in `ws` is at most `w` characters long.
pub open spec fn words_within(ws: Seq<Seq<char>>, w: nat) -> bool {
    forall|i: int| 0 <= i < ws.len() ==> #[trigger] ws[i].len() <= w
}

proof fn lemma_split_on_at_sep(a: Seq<char>, b: Seq<char>, c: char, sep: spec_fn(char) -> bool)
    requires
        sep(c),
    ensures
        split_on(a + seq![c] + b, sep) == split_on(a, sep) + split_on(b, sep),
    decreases b.len(),
{
    let pa = split_on(a, sep);
    if b.len() == 0 {
        assert(a + seq![c] + b =~= a.push(c));
        assert(a.push(c).drop_last() =~= a);
        assert(pa.push(Seq::empty()) =~= pa + seq![Seq::<char>::empty()]);
    } else {
        let b2 = b.drop_last();
        let d = b.last();
        lemma_split_on_at_sep(a, b2, c, sep);
        let s = a + seq![c] + b;
        assert(s.drop_last() =~= a + seq![c] + b2);
        assert(s.last() == d);
        assert(b2.push(d) =~= b);
        lemma_split_on_nonempty(b2, sep);
        let pb = split_on(b2, sep);
        let p = pa + pb;
        if sep(d) {
            assert(p.push(Seq::empty()) =~= pa + pb.push(Seq::empty()));
        } else {
            assert(p.update(p.len() - 1, p.last().push(d)) =~= pa + pb.update(
                pb.len() - 1,
                pb.last().push(d),
            ));
        }
    }
}

proof fn lemma_split_on_without_sep(w: Seq<char>, sep: spec_fn(char) -> bool)
    requires
        forall|i: int| 0 <= i < w.len() ==> !sep(#[trigger] w[i]),
    ensures
        split_on(w, sep) == seq![w],
    decreases w.len(),
{
    if w.len() > 0 {
        let w2 = w.drop_last();
        assert forall|i: int| 0 <= i < w2.len() implies !sep(#[trigger] w2[i]) by {
            assert(w2[i] == w[i]);
        }
        lemma_split_on_without_sep(w2, sep);
        assert(!sep(w[w.len() - 1]));
        assert(w2.push(w.last()) =~= w);
        assert(seq![w2].update(0, w2.push(w.last())) =~= seq![w]);
    }
}

proof fn lemma_split_on_pieces(s: Seq<char>, sep: spec_fn(char) -> bool)
    ensures
        forall|k: int, i: int|
            0 <= k < split_on(s, sep).len() && 0 <= i < split_on(s, sep)[k].len() ==> !sep(
                #[trigger] split_on(s, sep)[k][i],
            ),
    decreases s.len(),
{
    if s.len() > 0 {
        lemma_split_on_pieces(s.drop_last(), sep);
        lemma_split_on_nonempty(s.drop_last(), sep);
    }
}

proof fn lemma_filter_keeps(ps: Seq<Seq<char>>, q: spec_fn(Seq<char>) -> bool)
    requires
        forall|k: int| 0 <= k < ps.len() ==> #[trigger] q(ps[k]),
    ensures
        forall|k: int|
            0 <= k < ps.filter(nonempty_pred()).len() ==> q(#[trigger] ps.filter(nonempty_pred())[k])
                && ps.filter(nonempty_pred())[k].len() > 0,
    decreases ps.len(),
{
    if ps.len() > 0 {
        let ps2 = ps.drop_last();
        assert forall|k: int| 0 <= k < ps2.len() implies #[trigger] q(ps2[k]) by {
            assert(ps2[k] == ps[k]);
        }
        lemma_filter_keeps(ps2, q);
        assert(ps2.push(ps.last()) =~= ps);
        ps2.lemma_filter_push(ps.last(), nonempty_pred());
        assert(q(ps[ps.len() - 1]));
    }
}

proof fn lemma_words_are_words(s: Seq<char>)
    ensures
        forall|k: int| 0 <= k < words(s).len() ==> is_word(#[trigger] words(s)[k]),
{
    let ps = split_on(s, ws_sep());
    lemma_split_on_pieces(s, ws_sep());
    let q = |w: Seq<char>| forall|i: int| 0 <= i < w.len() ==> !is_ws(#[trigger] w[i]);
    assert forall|k: int| 0 <= k < ps.len() implies #[trigger] q(ps[k]) by {
        assert forall|i: int| 0 <= i < ps[k].len() implies !is_ws(#[trigger] ps[k][i]) by {
            assert(!ws_sep()(ps[k][i]));
        }
    }
    lemma_filter_keeps(ps, q);
    assert forall|k: int| 0 <= k < words(s).len() implies is_word(#[trigger] words(s)[k]) by {
        assert(q(words(s)[k]));
    }
}

proof fn lemma_words_empty()
    ensures
        words(Seq::empty()) == Seq::<Seq<char>>::empty(),
{
    let e = Seq::<char>::empty();
    assert(split_on(e, ws_sep()) == seq![e]);
    assert(seq![e] =~= Seq::<Seq<char>>::empty().push(e));
    Seq::<Seq<char>>::empty().lemma_filter_push(e, nonempty_pred());
    reveal(Seq::filter);
}

proof fn lemma_words_of_word(w: Seq<char>)
    requires
        is_word(w),
    ensures
        words(w) == seq![w],
{
    assert forall|i: int| 0 <= i < w.len() implies !ws_sep()(#[trigger] w[i]) by {
        assert(!is_ws(w[i]));
    }
    lemma_split_on_without_sep(w, ws_sep());
    assert(seq![w] =~= Seq::<Seq<char>>::empty().push(w));
    Seq::<Seq<char>>::empty().lemma_filter_push(w, nonempty_pred());
    reveal(Seq::filter);
}

proof fn lemma_words_at_space(a: Seq<char>, b: Seq<char>, c: char)
    requires
        is_ws(c),
    ensures
        words(a + seq![c] + b) == words(a) + words(b),
{
    assert(ws_sep()(c));
    lemma_split_on_at_sep(a, b, c, ws_sep());
    Seq::filter_distributes_over_add(split_on(a, ws_sep()), split_on(b, ws_sep()), nonempty_pred());
}

proof fn lemma_flat_words_push(ls: Seq<Seq<char>>, l: Seq<char>)
    ensures
        flat_words(ls.push(l)) == flat_words(ls) + words(l),
{
    assert(ls.push(l).drop_last() =~= ls);
}

proof fn lemma_words_by_newlines(a: Seq<char>, b: Seq<char>)
    requires
        forall|i: int| 0 <= i < b.len() ==> #[trigger] b[i] != '\n',
    ensures
        words(a + b) == flat_words(split_on(a, nl_sep()).drop_last()) + words(
            split_on(a, nl_sep()).last() + b,
        ),
    decreases a.len(),
{
    if a.len() == 0 {
        assert(a + b =~= b);
        assert(split_on(a, nl_sep()).drop_last() =~= Seq::<Seq<char>>::empty());
        assert(Seq::<char>::empty() + b =~= b);
    } else {
        let a2 = a.drop_last();
        let c = a.last();
        let p2 = split_on(a2, nl_sep());
        lemma_split_on_nonempty(a2, nl_sep());
        if c == '\n' {
            assert(a + b =~= a2 + seq![c] + b);
            lemma_words_at_space(a2, b, c);
            lemma_words_by_newlines(a2, Seq::empty());
            assert(a2 + Seq::<char>::empty() =~= a2);
            assert(p2.last() + Seq::<char>::empty() =~= p2.last());
            assert(p2.push(Seq::empty()).drop_last() =~= p2);
        } else {
            let b2 = seq![c] + b;
            assert forall|i: int| 0 <= i < b2.len() implies #[trigger] b2[i] != '\n' by {
                if i > 0 {
                    assert(b2[i] == b[i - 1]);
                }
            }
            lemma_words_by_newlines(a2, b2);
            assert(a2 + b2 =~= a + b);
            let p = p2.update(p2.len() - 1, p2.last().push(c));
            assert(p.drop_last() =~= p2.drop_last());
            assert(p2.last() + b2 =~= p2.last().push(c) + b);
        }
    }
}

proof fn lemma_words_strip_cr(l: Seq<char>)
    ensures
        words(strip_cr(l)) == words(l),
{
    if l.len() > 0 && l.last() == '\r' {
        assert(l =~= l.drop_last() + seq!['\r'] + Seq::<char>::empty());
        lemma_words_at_space(l.drop_last(), Seq::empty(), '\r');
        lemma_words_empty();
        assert(words(l.drop_last()) + Seq::<Seq<char>>::empty() =~= words(l.drop_last()));
    }
}

proof fn lemma_flat_words_strip_cr(ps: Seq<Seq<char>>)
    ensures
        flat_words(ps.map_values(strip_cr_fn())) == flat_words(ps),
    decreases ps.len(),
{
    if ps.len() > 0 {
        let m = ps.map_values(strip_cr_fn());
        assert(m.drop_last() =~= ps.drop_last().map_values(strip_cr_fn()));
        lemma_flat_words_strip_cr(ps.drop_last());
        lemma_words_strip_cr(ps.last());
    }
}

/// The words of a text are the words of its lines, one line after another.
proof fn lemma_lines_keep_words(text: Seq<char>)
    ensures
        flat_words(lines(text)) == words(text),
{
    let p = split_on(text, nl_sep());
    lemma_split_on_nonempty(text, nl_sep());
    lemma_words_by_newlines(text, Seq::empty());
    assert(text + Seq::<char>::empty() =~= text);
    assert(p.last() + Seq::<char>::empty() =~= p.last());
    let body = p.drop_last().map_values(strip_cr_fn());
    lemma_flat_words_strip_cr(p.drop_last());
    if p.last().len() > 0 {
        lemma_flat_words_push(body, p.last());
    } else {
        assert(p.last() =~= Seq::<char>::empty());
        lemma_words_empty();
        assert(flat_words(body) + Seq::<Seq<char>>::empty() =~= flat_words(body));
    }
}

proof fn lemma_wrap_steps(w: nat, acc: Seq<Seq<char>>, ws: Seq<Seq<char>>)
    requires
        w >= 1,
        forall|k: int| 0 <= k < ws.len() ==> is_word(#[trigger] ws[k]) && ws[k].len() <= w,
    ensures
        ({
            let st = ws.fold_left((acc, Seq::<char>::empty()), wrap_step_fn(w));
            flat_words(st.0) + words(st.1) == flat_words(acc) + ws
        }),
    decreases ws.len(),
{
    lemma_words_empty();
    if ws.len() == 0 {
        assert(flat_words(acc) + Seq::<Seq<char>>::empty() =~= flat_words(acc));
        assert(flat_words(acc) + ws =~= flat_words(acc));
    } else {
        let ws2 = ws.drop_last();
        let word = ws.last();
        assert forall|k: int| 0 <= k < ws2.len() implies is_word(#[trigger] ws2[k]) && ws2[k].len() <= w by {
            assert(ws2[k] == ws[k]);
        }
        lemma_wrap_steps(w, acc, ws2);
        let st2 = ws2.fold_left((acc, Seq::<char>::empty()), wrap_step_fn(w));
        let cur = st2.1;
        assert(is_word(ws[ws.len() - 1]));
        lemma_words_of_word(word);
        assert(ws =~= ws2.push(word));
        assert(prefix(word, w) == word);
        let st = wrap_step(w, st2, word);
        assert(ws.fold_left((acc, Seq::<char>::empty()), wrap_step_fn(w)) == st);
        if cur.len() == 0 {
            assert(cur =~= Seq::<char>::empty());
            assert(st == (st2.0, word));
            assert(flat_words(st2.0) + Seq::<Seq<char>>::empty() =~= flat_words(st2.0));
            assert(flat_words(st2.0) + seq![word] =~= flat_words(acc) + ws);
        } else {
            let cand = cur + seq![' '] + word;
            assert(is_ws(' '));
            lemma_words_at_space(cur, word, ' ');
            if cand.len() > w {
                assert(st == (st2.0.push(cur), word));
                lemma_flat_words_push(st2.0, cur);
                assert(flat_words(st2.0) + words(cur) + seq![word] =~= flat_words(acc) + ws);
            } else {
                assert(st == (st2.0, cand));
                let f = flat_words(st2.0);
                assert(f + (words(cur) + seq![word]) =~= (f + words(cur)) + seq![word]);
                assert((flat_words(acc) + ws2) + seq![word] =~= flat_words(acc) + ws);
            }
        }
    }
}

proof fn lemma_wrap_line_words(w: nat, acc: Seq<Seq<char>>, line: Seq<char>)
    requires
        w >= 1,
        words_within(words(line), w),
    ensures
        flat_words(wrap_line(w, acc, line)) == flat_words(acc) + words(line),
{
    lemma_words_empty();
    if line.len() == 0 {
        assert(line =~= Seq::<char>::empty());
        lemma_flat_words_push(acc, Seq::empty());
        assert(flat_words(acc) + Seq::<Seq<char>>::empty() =~= flat_words(acc));
    } else {
        let ws = words(line);
        lemma_words_are_words(line);
        assert forall|k: int| 0 <= k < ws.len() implies is_word(#[trigger] ws[k]) && ws[k].len() <= w by {
            assert(ws[k].len() <= w);
        }
        lemma_wrap_steps(w, acc, ws);
        let st = ws.fold_left((acc, Seq::<char>::empty()), wrap_step_fn(w));
        if st.1.len() > 0 {
            lemma_flat_words_push(st.0, st.1);
        } else {
            assert(st.1 =~= Seq::<char>::empty());
            assert(flat_words(st.0) + Seq::<Seq<char>>::empty() =~= flat_words(st.0));
        }
    }
}

proof fn lemma_wrap_lines_words(w: nat, ls: Seq<Seq<char>>)
    requires
        w >= 1,
        words_within(flat_words(ls), w),
    ensures
        flat_words(ls.fold_left(Seq::<Seq<char>>::empty(), wrap_line_fn(w))) == flat_words(ls),
    decreases ls.len(),
{
    if ls.len() > 0 {
        let ls2 = ls.drop_last();
        let f2 = flat_words(ls2);
        let wl = words(ls.last());
        assert(flat_words(ls) == f2 + wl);
        assert forall|i: int| 0 <= i < f2.len() implies #[trigger] f2[i].len() <= w by {
            assert((f2 + wl)[i] == f2[i]);
        }
        assert forall|i: int| 0 <= i < wl.len() implies #[trigger] wl[i].len() <= w by {
            assert((f2 + wl)[f2.len() + i] == wl[i]);
        }
        lemma_wrap_lines_words(w, ls2);
        lemma_wrap_line_words(w, ls2.fold_left(Seq::<Seq<char>>::empty(), wrap_line_fn(w)), ls.last());
    }
}

/// Wrapping keeps the words: when no word of `text` is longer than the width
/// (at least one), the words of the wrapped lines are the words of `text`,
/// whole and in the same order.
pub proof fn law_wrap_keeps_words(text: Seq<char>, width: nat)
    requires
        words_within(words(text), if width == 0 { 1 } else { width }),
    ensures
        flat_words(wrapped(text, width)) == words(text),
{
    let w: nat = if width == 0 { 1 } else { width };
    lemma_lines_keep_words(text);
    lemma_wrap_lines_words(w, lines(text));
    let ls = lines(text).fold_left(Seq::<Seq<char>>::empty(), wrap_line_fn(w));
    if ls.len() == 0 {
        lemma_words_empty();
        lemma_flat_words_push(Seq::empty(), Seq::empty());
        assert(seq![Seq::<char>::empty()] =~= Seq::<Seq<char>>::empty().push(Seq::empty()));
        assert(Seq::<Seq<char>>::empty() + Seq::<Seq<char>>::empty() =~= Seq::<Seq<char>>::empty());
    }
}

} // verus!
