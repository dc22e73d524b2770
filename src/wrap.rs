//! Width-aware reflow of markdown text: paragraphs are packed greedily into
//! lines, bullet items are packed one by one, fenced code passes untouched.
use vstd::prelude::*;
use vstd::string::*;

use crate::text::{
    chars_of, is_ascii_ws, join, join_strings, owned, push_char, push_str, string_of, views,
};

verus! {

broadcast use vstd::std_specs::vec::group_vec_axioms, vstd::seq::group_seq_axioms;

/// What `unindent::unindent` makes of a text: the common indentation of its
/// lines removed.
pub uninterp spec fn unindented(s: Seq<char>) -> Seq<char>;

/// Relies on `unindent::unindent`, which strips the indentation shared by the
/// lines of `s` and depends on `s` alone.
#[verifier::external_body]
pub(crate) fn unindent_str(s: &str) -> (r: String)
    ensures
        r@ == unindented(s@),
{
    unindent::unindent(s)
}

/// The maximal runs of characters that are not ASCII whitespace, in order.
pub open spec fn words(s: Seq<char>) -> Seq<Seq<char>>
    decreases s.len(),
{
    if s.len() == 0 {
        Seq::empty()
    } else {
        let p = s.subrange(0, s.len() - 1);
        let ws = words(p);
        let c = s.last();
        if is_ascii_ws(c) {
            ws
        } else if p.len() > 0 && !is_ascii_ws(p.last()) {
            ws.update(ws.len() - 1, ws.last().push(c))
        } else {
            ws.push(seq![c])
        }
    }
}

/// The lines that greedy packing makes of `ws`: a word joins the current line,
/// after one space, while the line stays within `cols` characters; otherwise
/// it starts a new line.
pub open spec fn pack(ws: Seq<Seq<char>>, cols: nat) -> Seq<Seq<char>>
    decreases ws.len(),
{
    if ws.len() == 0 {
        Seq::empty()
    } else {
        let lines = pack(ws.subrange(0, ws.len() - 1), cols);
        let w = ws.last();
        if lines.len() == 0 {
            seq![w]
        } else if lines.last().len() + 1 + w.len() > cols {
            lines.push(w)
        } else {
            lines.update(lines.len() - 1, lines.last() + seq![' '] + w)
        }
    }
}

/// The words of `t` packed into lines of at most `cols` characters.
pub open spec fn reflow_text(t: Seq<char>, cols: nat) -> Seq<char> {
    join(pack(words(t), cols), "\n"@)
}

/// What `wrap` makes of `s`: its indentation removed, then reflowed.
pub open spec fn wrap_text(s: Seq<char>, cols: nat) -> Seq<char> {
    reflow_text(unindented(s), cols)
}

pub(crate) fn is_ws(c: char) -> (r: bool)
    ensures
        r == is_ascii_ws(c),
{
    c == ' ' || c == '\t' || c == '\n' || c == '\x0C' || c == '\r'
}

/// The words of `s`: its maximal runs of characters that are not ASCII
/// whitespace.
pub fn split_words(s: &str) -> (r: Vec<String>)
    ensures
        views(r@) == words(s@),
{
    let cs = chars_of(s);
    let n = cs.len();
    let mut done: Vec<String> = Vec::new();
    let mut start: usize = 0;
    let mut i: usize = 0;
    while i < n
        invariant
            n == cs@.len(),
            cs@ == s@,
            start <= i <= n,
            i > 0 && !is_ascii_ws(cs@[i - 1]) ==> start < i && words(cs@.subrange(0, i as int))
                == views(done@).push(cs@.subrange(start as int, i as int)),
            !(i > 0 && !is_ascii_ws(cs@[i - 1])) ==> words(cs@.subrange(0, i as int)) == views(
                done@,
            ),
        decreases n - i,
    {
        let ghost p = cs@.subrange(0, i as int);
        let ghost q = cs@.subrange(0, i + 1);
        assert(q.subrange(0, i as int) =~= p);
        let in_word = i > 0 && !is_ws(cs[i - 1]);
        let c = cs[i];
        if is_ws(c) {
            if in_word {
                let w = string_of(&cs, start, i);
                done.push(w);
                assert(views(done@) =~= words(p));
            }
        } else if !in_word {
            start = i;
            assert(q.last() == c);
            assert(i > 0 ==> p.last() == cs@[i - 1]);
            assert(words(q) == words(p).push(seq![c]));
            assert(words(p) == views(done@));
            assert(cs@.subrange(start as int, i + 1) =~= seq![c]);
            assert(words(q) =~= views(done@).push(cs@.subrange(start as int, i + 1)));
        } else {
            assert(cs@.subrange(start as int, i + 1) =~= cs@.subrange(start as int, i as int).push(c));
        }
        i = i + 1;
    }
    assert(cs@.subrange(0, n as int) =~= cs@);
    if n > 0 && !is_ws(cs[n - 1]) {
        let w = string_of(&cs, start, n);
        done.push(w);
    }
    assert(views(done@) =~= words(s@));
    done
}

proof fn lemma_join_push(lines: Seq<Seq<char>>, w: Seq<char>, sep: Seq<char>)
    requires
        lines.len() > 0,
    ensures
        join(lines.push(w), sep) == join(lines, sep) + sep + w,
{
    assert(lines.push(w).subrange(0, lines.len() as int) =~= lines);
}

proof fn lemma_join_extend_last(lines: Seq<Seq<char>>, tail: Seq<char>, sep: Seq<char>)
    requires
        lines.len() > 0,
    ensures
        join(lines.update(lines.len() - 1, lines.last() + tail), sep) == join(lines, sep) + tail,
{
    let u = lines.update(lines.len() - 1, lines.last() + tail);
    if lines.len() > 1 {
        assert(u.subrange(0, u.len() - 1) =~= lines.subrange(0, lines.len() - 1));
    }
    assert(join(u, sep) =~= join(lines, sep) + tail);
}

/// The words packed greedily into lines of at most `cols` characters (a word
/// longer than that stands alone on its line), lines separated by `\n`.
pub fn fill(ws: &Vec<String>, cols: usize) -> (r: String)
    ensures
        r@ == join(pack(views(ws@), cols as nat), "\n"@),
{
    let ghost vw = views(ws@);
    let mut r = String::new();
    let mut line: usize = 0;
    let mut i: usize = 0;
    while i < ws.len()
        invariant
            vw == views(ws@),
            i <= ws@.len(),
            pack(vw.subrange(0, i as int), cols as nat).len() > 0 <==> i > 0,
            i > 0 ==> line == pack(vw.subrange(0, i as int), cols as nat).last().len(),
            r@ == join(pack(vw.subrange(0, i as int), cols as nat), "\n"@),
        decreases ws@.len() - i,
    {
        let ghost lines = pack(vw.subrange(0, i as int), cols as nat);
        assert(vw.subrange(0, i + 1).subrange(0, i as int) =~= vw.subrange(0, i as int));
        let w = ws[i].as_str();
        let len = w.unicode_len();
        if i == 0 {
            push_str(&mut r, w);
            line = len;
            assert(pack(vw.subrange(0, 1), cols as nat) =~= seq![w@]);
        } else if len >= cols || line > cols - 1 - len {
            proof {
                lemma_join_push(lines, w@, "\n"@);
                reveal_strlit("\n");
            }
            push_char(&mut r, '\n');
            push_str(&mut r, w);
            line = len;
            assert(r@ =~= join(lines, "\n"@) + "\n"@ + w@);
        } else {
            proof {
                lemma_join_extend_last(lines, seq![' '] + w@, "\n"@);
                assert(lines.last() + seq![' '] + w@ =~= lines.last() + (seq![' '] + w@));
            }
            push_char(&mut r, ' ');
            push_str(&mut r, w);
            line = line + 1 + len;
            assert(r@ =~= join(lines, "\n"@) + (seq![' '] + w@));
        }
        i = i + 1;
    }
    assert(vw.subrange(0, ws@.len() as int) =~= vw);
    r
}

/// The words of `text` packed greedily into lines of at most `cols`
/// characters; a word longer than that stands alone on its line.
pub fn reflow(text: &str, cols: usize) -> (r: String)
    ensures
        r@ == reflow_text(text@, cols as nat),
{
    let ws = split_words(text);
    fill(&ws, cols)
}

/// `s` with its common indentation removed, then reflowed to `cols` columns.
pub fn wrap(s: &str, cols: usize) -> (r: String)
    ensures
        r@ == wrap_text(s@, cols as nat),
{
    let plain = unindent_str(s);
    reflow(plain.as_str(), cols)
}

/// `s` cut at each occurrence of `sep`, scanning from the left; the pieces
/// between occurrences, the first and last included, in order.
pub open spec fn split_by(s: Seq<char>, sep: Seq<char>) -> Seq<Seq<char>>
    decreases s.len(),
{
    if s.len() == 0 {
        seq![Seq::empty()]
    } else if sep.len() > 0 && s.len() >= sep.len() && s.subrange(0, sep.len() as int) == sep {
        seq![Seq::empty()] + split_by(s.subrange(sep.len() as int, s.len() as int), sep)
    } else {
        glue(seq![s[0]], split_by(s.subrange(1, s.len() as int), sep))
    }
}

/// `cur` put before the first piece of `r`.
pub open spec fn glue(cur: Seq<char>, r: Seq<Seq<char>>) -> Seq<Seq<char>> {
    r.update(0, cur + r[0])
}

pub proof fn lemma_split_by_nonempty(s: Seq<char>, sep: Seq<char>)
    ensures
        split_by(s, sep).len() > 0,
    decreases s.len(),
{
    if s.len() > 0 {
        if sep.len() > 0 && s.len() >= sep.len() && s.subrange(0, sep.len() as int) == sep {
            lemma_split_by_nonempty(s.subrange(sep.len() as int, s.len() as int), sep);
        } else {
            lemma_split_by_nonempty(s.subrange(1, s.len() as int), sep);
        }
    }
}

/// `s` without the ASCII whitespace at its start.
pub open spec fn trim_start(s: Seq<char>) -> Seq<char>
    decreases s.len(),
{
    if s.len() > 0 && is_ascii_ws(s[0]) {
        trim_start(s.subrange(1, s.len() as int))
    } else {
        s
    }
}

/// `s` without the ASCII whitespace at its end.
pub open spec fn trim_end(s: Seq<char>) -> Seq<char>
    decreases s.len(),
{
    if s.len() > 0 && is_ascii_ws(s.last()) {
        trim_end(s.subrange(0, s.len() - 1))
    } else {
        s
    }
}

/// `s` without the ASCII whitespace at either end.
pub open spec fn trim_ascii(s: Seq<char>) -> Seq<char> {
    trim_end(trim_start(s))
}

/// `s` with two spaces after each line break.
pub open spec fn indent_continuations(s: Seq<char>) -> Seq<char>
    decreases s.len(),
{
    if s.len() == 0 {
        Seq::empty()
    } else if s.last() == '\n' {
        indent_continuations(s.subrange(0, s.len() - 1)) + seq!['\n', ' ', ' ']
    } else {
        indent_continuations(s.subrange(0, s.len() - 1)).push(s.last())
    }
}

/// The block begins with three backticks.
pub open spec fn opens_fence(b: Seq<char>) -> bool {
    b.len() >= 3 && b[0] == '`' && b[1] == '`' && b[2] == '`'
}

/// The block ends with three backticks.
pub open spec fn closes_fence(b: Seq<char>) -> bool {
    b.len() >= 3 && b[b.len() - 3] == '`' && b[b.len() - 2] == '`' && b[b.len() - 1] == '`'
}

/// Whether a fenced code block is open after block `b`, given whether one was
/// open before it.
pub open spec fn code_state_after(in_code: bool, b: Seq<char>) -> bool {
    if in_code || opens_fence(b) {
        !closes_fence(b)
    } else {
        false
    }
}

/// Whether a fenced code block is open after the blocks `bs`.
pub open spec fn in_code_after(bs: Seq<Seq<char>>) -> bool
    decreases bs.len(),
{
    if bs.len() == 0 {
        false
    } else {
        code_state_after(in_code_after(bs.subrange(0, bs.len() - 1)), bs.last())
    }
}

/// The items of a bullet-list block: the block without its leading `*`,
/// trimmed, cut at each `\n* `.
pub open spec fn bullet_items(b: Seq<char>) -> Seq<Seq<char>> {
    split_by(trim_ascii(b.subrange(1, b.len() as int)), "\n* "@)
}

/// A bullet-list block with each item wrapped on its own and its continuation
/// lines indented under the bullet.
pub open spec fn bullet_text(b: Seq<char>, cols: nat) -> Seq<char> {
    "* "@ + join(
        bullet_items(b).map_values(|it: Seq<char>| indent_continuations(wrap_text(it, cols))),
        "\n* "@,
    )
}

/// What one block becomes: verbatim inside or at the start of fenced code, a
/// reflowed bullet list when it starts with `*`, else a reflowed paragraph.
pub open spec fn render_block(b: Seq<char>, in_code: bool, cols: nat) -> Seq<char> {
    if in_code || opens_fence(b) {
        b
    } else if b.len() > 0 && b[0] == '*' {
        bullet_text(b, cols)
    } else {
        wrap_text(b, cols)
    }
}

/// The renderings of the blocks `bs`, in order, each knowing whether fenced
/// code is open before it.
pub open spec fn render_blocks(bs: Seq<Seq<char>>, cols: nat) -> Seq<Seq<char>>
    decreases bs.len(),
{
    if bs.len() == 0 {
        Seq::empty()
    } else {
        let p = bs.subrange(0, bs.len() - 1);
        render_blocks(p, cols).push(render_block(bs.last(), in_code_after(p), cols))
    }
}

/// The column budget for a terminal width: the width held to `20..=80`, less
/// a margin of five.
pub open spec fn budget(terminal_cols: int) -> nat {
    if terminal_cols < 20 {
        15
    } else if terminal_cols > 80 {
        75
    } else {
        (terminal_cols - 5) as nat
    }
}

/// What `wrap_all` makes of a document.
pub open spec fn wrap_all_text(s: Seq<char>, terminal_cols: int) -> Seq<char> {
    join(render_blocks(split_by(s, "\n\n"@), budget(terminal_cols)), "\n\n"@)
}

fn matches_at(cs: &Vec<char>, i: usize, sep: &Vec<char>) -> (r: bool)
    requires
        i <= cs@.len(),
    ensures
        r == (cs@.len() - i >= sep@.len() && cs@.subrange(i as int, i + sep@.len()) == sep@),
{
    let n = cs.len();
    if n - i < sep.len() {
        return false;
    }
    let mut j: usize = 0;
    while j < sep.len()
        invariant
            n == cs@.len(),
            i <= cs@.len(),
            cs@.len() - i >= sep@.len(),
            j <= sep@.len(),
            cs@.subrange(i as int, i + j) == sep@.subrange(0, j as int),
        decreases sep@.len() - j,
    {
        if cs[i + j] != sep[j] {
            assert(cs@.subrange(i as int, i + sep@.len())[j as int] != sep@[j as int]);
            return false;
        }
        assert(cs@.subrange(i as int, i + j + 1) =~= sep@.subrange(0, j + 1));
        j = j + 1;
    }
    assert(sep@.subrange(0, sep@.len() as int) =~= sep@);
    true
}

/// The pieces of `s` between the occurrences of `sep`, scanning from the
/// left.
pub fn split_str(s: &str, sep: &str) -> (r: Vec<String>)
    requires
        sep@.len() > 0,
    ensures
        views(r@) == split_by(s@, sep@),
{
    let cs = chars_of(s);
    let sp = chars_of(sep);
    let n = cs.len();
    let m = sp.len();
    let mut done: Vec<String> = Vec::new();
    let mut start: usize = 0;
    let mut i: usize = 0;
    proof {
        lemma_split_by_nonempty(s@, sep@);
        assert(cs@.subrange(0, n as int) =~= s@);
        assert(Seq::<char>::empty() + split_by(s@, sep@)[0] =~= split_by(s@, sep@)[0]);
        assert(views(done@) + glue(Seq::empty(), split_by(s@, sep@)) =~= split_by(s@, sep@));
    }
    while i < n
        invariant
            n == cs@.len(),
            cs@ == s@,
            sp@ == sep@,
            m == sp@.len(),
            m > 0,
            start <= i <= n,
            split_by(s@, sep@) == views(done@) + glue(
                cs@.subrange(start as int, i as int),
                split_by(cs@.subrange(i as int, n as int), sep@),
            ),
        decreases n - i,
    {
        let ghost rest = cs@.subrange(i as int, n as int);
        proof {
            lemma_split_by_nonempty(rest, sep@);
        }
        let ghost cur = cs@.subrange(start as int, i as int);
        let ghost before = views(done@);
        if matches_at(&cs, i, &sp) {
            let ghost after = cs@.subrange(i + m, n as int);
            assert(rest.subrange(0, m as int) =~= cs@.subrange(i as int, i + m));
            assert(rest.subrange(m as int, rest.len() as int) =~= after);
            assert(split_by(rest, sep@) == seq![Seq::<char>::empty()] + split_by(after, sep@));
            proof {
                lemma_split_by_nonempty(after, sep@);
            }
            let w = string_of(&cs, start, i);
            done.push(w);
            start = i + m;
            i = i + m;
            assert(cur + Seq::<char>::empty() =~= cur);
            assert(Seq::<char>::empty() + split_by(after, sep@)[0] =~= split_by(after, sep@)[0]);
            assert(glue(Seq::empty(), split_by(after, sep@)) =~= split_by(after, sep@));
            assert(cs@.subrange(start as int, i as int) =~= Seq::<char>::empty());
            assert(views(done@) =~= before.push(cur));
            assert(glue(cur, split_by(rest, sep@)) =~= seq![cur] + split_by(after, sep@));
            assert(before + glue(cur, split_by(rest, sep@)) =~= views(done@) + glue(
                cs@.subrange(start as int, i as int),
                split_by(after, sep@),
            ));
        } else {
            let ghost after = cs@.subrange(i + 1, n as int);
            assert(rest.subrange(1, rest.len() as int) =~= after);
            assert(rest.len() < m || rest.subrange(0, m as int) != sep@) by {
                if rest.len() >= m {
                    assert(rest.subrange(0, m as int) =~= cs@.subrange(i as int, i + m));
                }
            }
            assert(rest[0] == cs@[i as int]);
            assert(split_by(rest, sep@) == glue(seq![cs@[i as int]], split_by(after, sep@)));
            proof {
                lemma_split_by_nonempty(after, sep@);
            }
            let ghost x = split_by(after, sep@)[0];
            assert(cs@.subrange(start as int, i + 1) =~= cur + seq![cs@[i as int]]);
            assert(cur + (seq![cs@[i as int]] + x) =~= (cur + seq![cs@[i as int]]) + x);
            assert(glue(cur, split_by(rest, sep@)) =~= glue(
                cs@.subrange(start as int, i + 1),
                split_by(after, sep@),
            ));
            i = i + 1;
        }
    }
    let w = string_of(&cs, start, n);
    done.push(w);
    assert(cs@.subrange(n as int, n as int) =~= Seq::<char>::empty());
    assert(views(done@) =~= split_by(s@, sep@));
    done
}

/// The characters `cs[from..]` without ASCII whitespace at either end.
fn trimmed(cs: &Vec<char>, from: usize) -> (r: String)
    requires
        from <= cs@.len(),
    ensures
        r@ == trim_ascii(cs@.subrange(from as int, cs@.len() as int)),
{
    let n = cs.len();
    let mut lo: usize = from;
    while lo < n && is_ws(cs[lo])
        invariant
            n == cs@.len(),
            from <= lo <= n,
            trim_start(cs@.subrange(from as int, n as int)) == trim_start(
                cs@.subrange(lo as int, n as int),
            ),
        decreases n - lo,
    {
        assert(cs@.subrange(lo as int, n as int).subrange(1, n - lo) =~= cs@.subrange(
            lo + 1,
            n as int,
        ));
        lo = lo + 1;
    }
    let mut hi: usize = n;
    while hi > lo && is_ws(cs[hi - 1])
        invariant
            n == cs@.len(),
            lo <= hi <= n,
            trim_start(cs@.subrange(from as int, n as int)) == cs@.subrange(lo as int, n as int),
            trim_end(cs@.subrange(lo as int, n as int)) == trim_end(
                cs@.subrange(lo as int, hi as int),
            ),
        decreases hi,
    {
        assert(cs@.subrange(lo as int, hi as int).subrange(0, hi - 1 - lo) =~= cs@.subrange(
            lo as int,
            hi - 1,
        ));
        hi = hi - 1;
    }
    string_of(cs, lo, hi)
}

/// `t` with two spaces after each line break.
fn indent_string(t: &str) -> (r: String)
    ensures
        r@ == indent_continuations(t@),
{
    let cs = chars_of(t);
    let mut r = String::new();
    let mut i: usize = 0;
    while i < cs.len()
        invariant
            cs@ == t@,
            i <= cs@.len(),
            r@ == indent_continuations(cs@.subrange(0, i as int)),
        decreases cs@.len() - i,
    {
        let ghost p = cs@.subrange(0, i + 1);
        assert(p.subrange(0, i as int) =~= cs@.subrange(0, i as int));
        let c = cs[i];
        if c == '\n' {
            push_str(&mut r, "\n  ");
            proof {
                reveal_strlit("\n  ");
            }
            assert(r@ =~= indent_continuations(p));
        } else {
            push_char(&mut r, c);
        }
        i = i + 1;
    }
    assert(cs@.subrange(0, cs@.len() as int) =~= cs@);
    r
}

/// A bullet-list block: each item wrapped on its own, continuation lines
/// indented under the bullet.
fn bullet(block: &str, cols: usize) -> (r: String)
    requires
        block@.len() > 0,
    ensures
        r@ == bullet_text(block@, cols as nat),
{
    let cs = chars_of(block);
    let body = trimmed(&cs, 1);
    proof {
        reveal_strlit("\n* ");
    }
    let items = split_str(body.as_str(), "\n* ");
    let mut out: Vec<String> = Vec::new();
    let mut i: usize = 0;
    while i < items.len()
        invariant
            i <= items@.len(),
            out@.len() == i,
            forall|j: int|
                0 <= j < i ==> #[trigger] out@[j]@ == indent_continuations(
                    wrap_text(items@[j]@, cols as nat),
                ),
        decreases items@.len() - i,
    {
        let wrapped = wrap(items[i].as_str(), cols);
        out.push(indent_string(wrapped.as_str()));
        i = i + 1;
    }
    assert(views(out@) =~= bullet_items(block@).map_values(
        |it: Seq<char>| indent_continuations(wrap_text(it, cols as nat)),
    ));
    let joined = join_strings(&out, "\n* ");
    let mut r = String::new();
    push_char(&mut r, '*');
    push_char(&mut r, ' ');
    push_str(&mut r, joined.as_str());
    proof {
        reveal_strlit("* ");
    }
    assert(r@ =~= bullet_text(block@, cols as nat));
    r
}

/// Reflows a markdown document for a terminal of `terminal_cols` columns:
/// the document is cut into blocks at blank lines; fenced code passes
/// verbatim, bullet lists are wrapped item by item, other blocks are wrapped
/// as paragraphs; the blocks are joined again with blank lines.
pub fn wrap_all(s: String, terminal_cols: usize) -> (r: String)
    ensures
        r@ == wrap_all_text(s@, terminal_cols as int),
{
    let cols: usize = if terminal_cols < 20 {
        15
    } else if terminal_cols > 80 {
        75
    } else {
        terminal_cols - 5
    };
    proof {
        reveal_strlit("\n\n");
    }
    let blocks = split_str(s.as_str(), "\n\n");
    let ghost bs = views(blocks@);
    let mut in_code = false;
    let mut out: Vec<String> = Vec::new();
    let mut i: usize = 0;
    while i < blocks.len()
        invariant
            bs == views(blocks@),
            cols == budget(terminal_cols as int),
            i <= blocks@.len(),
            in_code == in_code_after(bs.subrange(0, i as int)),
            views(out@) == render_blocks(bs.subrange(0, i as int), cols as nat),
        decreases blocks@.len() - i,
    {
        let ghost p = bs.subrange(0, i as int);
        let ghost q = bs.subrange(0, i + 1);
        assert(q.subrange(0, i as int) =~= p);
        assert(q.last() == blocks@[i as int]@);
        let b = blocks[i].as_str();
        let cs = chars_of(b);
        let n = cs.len();
        let opens = n >= 3 && cs[0] == '`' && cs[1] == '`' && cs[2] == '`';
        let closes = n >= 3 && cs[n - 3] == '`' && cs[n - 2] == '`' && cs[n - 1] == '`';
        let rendered = if in_code || opens {
            in_code = !closes;
            owned(b)
        } else {
            in_code = false;
            if n > 0 && cs[0] == '*' {
                bullet(b, cols)
            } else {
                wrap(b, cols)
            }
        };
        out.push(rendered);
        assert(views(out@) =~= render_blocks(q, cols as nat));
        i = i + 1;
    }
    assert(bs.subrange(0, bs.len() as int) =~= bs);
    join_strings(&out, "\n\n")
}

/// A non-empty run of characters none of which is ASCII whitespace.
pub open spec fn is_word(w: Seq<char>) -> bool {
    w.len() > 0 && forall|k: int| 0 <= k < w.len() ==> !is_ascii_ws(#[trigger] w[k])
}

proof fn lemma_words_are_words(s: Seq<char>)
    ensures
        forall|i: int| 0 <= i < words(s).len() ==> is_word(#[trigger] words(s)[i]),
    decreases s.len(),
{
    if s.len() > 0 {
        let p = s.subrange(0, s.len() - 1);
        lemma_words_are_words(p);
        let ws = words(p);
        let c = s.last();
        if !is_ascii_ws(c) {
            if p.len() > 0 && !is_ascii_ws(p.last()) {
                let w = ws.last().push(c);
                assert(ws.len() > 0) by {
                    lemma_words_nonempty_end(p);
                }
                assert(is_word(ws[ws.len() - 1]));
                assert(is_word(w));
                assert forall|i: int| 0 <= i < words(s).len() implies is_word(#[trigger] words(s)[i]) by {
                    if i < ws.len() - 1 {
                        assert(words(s)[i] == ws[i]);
                    }
                }
            } else {
                assert(is_word(seq![c]));
                assert forall|i: int| 0 <= i < words(s).len() implies is_word(#[trigger] words(s)[i]) by {
                    if i < ws.len() {
                        assert(words(s)[i] == ws[i]);
                    }
                }
            }
        }
    }
}

/// A text that ends in a character other than whitespace has a word.
proof fn lemma_words_nonempty_end(s: Seq<char>)
    requires
        s.len() > 0,
        !is_ascii_ws(s.last()),
    ensures
        words(s).len() > 0,
    decreases s.len(),
{
    let p = s.subrange(0, s.len() - 1);
    if p.len() > 0 && !is_ascii_ws(p.last()) {
        lemma_words_nonempty_end(p);
    }
}

proof fn lemma_words_of_word(w: Seq<char>)
    requires
        is_word(w),
    ensures
        words(w) == seq![w],
    decreases w.len(),
{
    let p = w.subrange(0, w.len() - 1);
    assert(!is_ascii_ws(w[w.len() - 1]));
    if p.len() > 0 {
        assert(is_word(p)) by {
            assert forall|k: int| 0 <= k < p.len() implies !is_ascii_ws(#[trigger] p[k]) by {
                assert(p[k] == w[k]);
            }
        }
        lemma_words_of_word(p);
        assert(p.last() == w[w.len() - 2]);
        assert(words(w) == words(p).update(0, p.push(w.last())));
        assert(p.push(w.last()) =~= w);
        assert(seq![p].update(0, w) =~= seq![w]);
    } else {
        assert(p =~= Seq::<char>::empty());
        assert(words(p) =~= Seq::<Seq<char>>::empty());
        assert(words(w) == words(p).push(seq![w.last()]));
        assert(w =~= seq![w[0]]);
        assert(words(w) =~= seq![w]);
    }
}

/// Words after a separator are appended to the words before it.
proof fn lemma_words_after_separator(t: Seq<char>, c: char, w: Seq<char>)
    requires
        is_ascii_ws(c),
        is_word(w),
    ensures
        words(t + seq![c] + w) == words(t).push(w),
    decreases w.len(),
{
    let s = t + seq![c] + w;
    let p = s.subrange(0, s.len() - 1);
    assert(s.last() == w.last());
    assert(!is_ascii_ws(w[w.len() - 1]));
    if w.len() == 1 {
        assert(p =~= t + seq![c]);
        assert(p.last() == c);
        assert(p.subrange(0, p.len() - 1) =~= t);
        assert(words(p) == words(t));
        assert(words(s) == words(p).push(seq![s.last()]));
        assert(w =~= seq![w[0]]);
    } else {
        let w1 = w.subrange(0, w.len() - 1);
        assert(is_word(w1)) by {
            assert forall|k: int| 0 <= k < w1.len() implies !is_ascii_ws(#[trigger] w1[k]) by {
                assert(w1[k] == w[k]);
            }
        }
        lemma_words_after_separator(t, c, w1);
        assert(p =~= t + seq![c] + w1);
        assert(p.last() == w[w.len() - 2]);
        let wp = words(p);
        assert(words(s) == wp.update(wp.len() - 1, wp.last().push(s.last())));
        assert(w1.push(w.last()) =~= w);
        assert(words(t).push(w1).update(words(t).len() as int, w) =~= words(t).push(w));
    }
}

proof fn lemma_pack_nonempty(ws: Seq<Seq<char>>, cols: nat)
    requires
        ws.len() > 0,
    ensures
        pack(ws, cols).len() > 0,
{
}

/// Splitting packed lines into words gives back the words that were packed.
proof fn lemma_words_of_packed(ws: Seq<Seq<char>>, cols: nat)
    requires
        forall|i: int| 0 <= i < ws.len() ==> is_word(#[trigger] ws[i]),
    ensures
        words(join(pack(ws, cols), "\n"@)) == ws,
    decreases ws.len(),
{
    reveal_strlit("\n");
    if ws.len() == 0 {
        assert(words(Seq::<char>::empty()) =~= ws);
    } else {
        let p = ws.subrange(0, ws.len() - 1);
        let w = ws.last();
        assert(is_word(ws[ws.len() - 1]));
        let lines = pack(p, cols);
        if p.len() == 0 {
            lemma_words_of_word(w);
            assert(ws =~= seq![w]);
        } else {
            assert forall|i: int| 0 <= i < p.len() implies is_word(#[trigger] p[i]) by {
                assert(p[i] == ws[i]);
            }
            lemma_words_of_packed(p, cols);
            lemma_pack_nonempty(p, cols);
            let j = join(lines, "\n"@);
            if lines.last().len() + 1 + w.len() > cols {
                lemma_join_push(lines, w, "\n"@);
                lemma_words_after_separator(j, '\n', w);
                assert(j + "\n"@ + w =~= j + seq!['\n'] + w);
            } else {
                lemma_join_extend_last(lines, seq![' '] + w, "\n"@);
                assert(lines.last() + seq![' '] + w =~= lines.last() + (seq![' '] + w));
                lemma_words_after_separator(j, ' ', w);
                assert(j + (seq![' '] + w) =~= j + seq![' '] + w);
            }
            assert(p.push(w) =~= ws);
        }
    }
}

/// Reflowing text that was already reflowed to the same width changes
/// nothing: the words are the same, so the line breaks are the same.
pub proof fn lemma_reflow_idempotent(t: Seq<char>, cols: nat)
    ensures
        reflow_text(reflow_text(t, cols), cols) == reflow_text(t, cols),
{
    lemma_words_are_words(t);
    lemma_words_of_packed(words(t), cols);
}

/// Every line that packing makes is at most `cols` characters long, or is a
/// single word longer than that.
pub proof fn lemma_pack_width(ws: Seq<Seq<char>>, cols: nat)
    ensures
        forall|i: int|
            0 <= i < pack(ws, cols).len() ==> #[trigger] pack(ws, cols)[i].len() <= cols || exists|
                j: int,
            |
                0 <= j < ws.len() && ws[j] == pack(ws, cols)[i],
    decreases ws.len(),
{
    if ws.len() > 0 {
        let p = ws.subrange(0, ws.len() - 1);
        lemma_pack_width(p, cols);
        let lines = pack(p, cols);
        let out = pack(ws, cols);
        assert forall|i: int| 0 <= i < out.len() implies #[trigger] out[i].len() <= cols || exists|
            j: int,
        |
            0 <= j < ws.len() && ws[j] == out[i] by {
            if i < lines.len() && out[i] == lines[i] {
                if lines[i].len() > cols {
                    let j = choose|j: int| 0 <= j < p.len() && p[j] == lines[i];
                    assert(ws[j] == p[j]);
                }
            } else {
                if !(lines.len() > 0 && lines.last().len() + 1 + ws.last().len() <= cols) {
                    assert(out[i] == ws[ws.len() - 1]);
                }
            }
        }
    }
}

/// The renderings of the blocks correspond one to one to the blocks, each
/// made knowing whether fenced code is open before it.
pub proof fn lemma_render_blocks(bs: Seq<Seq<char>>, cols: nat)
    ensures
        render_blocks(bs, cols).len() == bs.len(),
        forall|i: int|
            0 <= i < bs.len() ==> #[trigger] render_blocks(bs, cols)[i] == render_block(
                bs[i],
                in_code_after(bs.subrange(0, i)),
                cols,
            ),
    decreases bs.len(),
{
    if bs.len() > 0 {
        let p = bs.subrange(0, bs.len() - 1);
        lemma_render_blocks(p, cols);
        assert forall|i: int| 0 <= i < bs.len() implies #[trigger] render_blocks(bs, cols)[i]
            == render_block(bs[i], in_code_after(bs.subrange(0, i)), cols) by {
            if i < p.len() {
                assert(p.subrange(0, i) =~= bs.subrange(0, i));
                assert(p[i] == bs[i]);
            } else {
                assert(p =~= bs.subrange(0, i));
            }
        }
    }
}

/// A block inside fenced code, or opening it, comes out exactly as it came
/// in, whatever the terminal width.
pub proof fn lemma_code_verbatim(s: Seq<char>, terminal_cols: int, i: int)
    requires
        0 <= i < split_by(s, "\n\n"@).len(),
        in_code_after(split_by(s, "\n\n"@).subrange(0, i)) || opens_fence(split_by(s, "\n\n"@)[i]),
    ensures
        render_blocks(split_by(s, "\n\n"@), budget(terminal_cols))[i] == split_by(s, "\n\n"@)[i],
{
    lemma_render_blocks(split_by(s, "\n\n"@), budget(terminal_cols));
}

} // verus!
