//! Writing snippets as a snippet file and reading that file back.
use vstd::prelude::*;
use crate::laws::lemma_run_append;
use crate::parser::{pull, render_all, ParserModel};
use crate::reader::{is_end_line, is_start_line, join_lines, parse, run, step, title_of, ReaderModel};
use crate::snippet::{render, Block};
use crate::text::{
    first_newline, has_substring, is_white_space, lemma_first_newline, lines_of, occurs_at,
    replace_all, strip_cr, trim_end, trim_start, trimmed,
};

verus! {

/// A snippet that a snippet file can hold so that it reads back the same:
/// its title is one line without `--` and without whitespace at either end,
/// and its text holds no `-- end --` and no `'\r'` at the end of a line.
pub open spec fn writable_block(b: Block) -> bool {
    &&& forall|i: int| 0 <= i < b.title.len() ==> b.title[i] != '\n'
    &&& !has_substring(b.title, seq!['-', '-'])
    &&& b.title.len() > 0 ==> !is_white_space(b.title[0]) && !is_white_space(b.title.last())
    &&& !is_end_line(b.body)
    &&& forall|i: int|
        0 <= i < b.body.len() && #[trigger] b.body[i] == '\r' ==> i + 1 < b.body.len() && b.body[i + 1] != '\n'
}

proof fn lemma_first_newline_props(t: Seq<char>)
    ensures
        first_newline(t) <= t.len(),
        forall|m: int| 0 <= m < first_newline(t) ==> t[m] != '\n',
        first_newline(t) < t.len() ==> t[first_newline(t) as int] == '\n',
    decreases t.len(),
{
    if t.len() > 0 && t[0] != '\n' {
        lemma_first_newline_props(t.drop_first());
        assert forall|m: int| 0 <= m < first_newline(t) implies t[m] != '\n' by {
            if m > 0 {
                assert(t[m] == t.drop_first()[m - 1]);
            }
        }
    }
}

proof fn lemma_lines_of_append(a: Seq<char>, b: Seq<char>)
    requires
        a.len() == 0 || a.last() == '\n',
    ensures
        lines_of(a + b) == lines_of(a) + lines_of(b),
    decreases a.len(),
{
    if a.len() == 0 {
        assert(a + b =~= b);
        assert(lines_of(a) + lines_of(b) =~= lines_of(b));
    } else {
        lemma_first_newline_props(a);
        let k = first_newline(a) as int;
        assert(k < a.len());
        lemma_first_newline(a + b, k);
        let a2 = a.subrange(k + 1, a.len() as int);
        assert((a + b).subrange(0, k) =~= a.subrange(0, k));
        assert((a + b).subrange(k + 1, (a + b).len() as int) =~= a2 + b);
        lemma_lines_of_append(a2, b);
        assert(lines_of(a + b) =~= lines_of(a) + lines_of(b));
    }
}

proof fn lemma_no_occurrence_in_part(s: Seq<char>, lo: int, hi: int, p: Seq<char>)
    requires
        0 <= lo <= hi <= s.len(),
        !has_substring(s, p),
    ensures
        !has_substring(s.subrange(lo, hi), p),
{
    let sub = s.subrange(lo, hi);
    if has_substring(sub, p) {
        let i = choose|i: int| occurs_at(sub, p, i);
        assert(s.subrange(i + lo, i + lo + p.len()) =~= sub.subrange(i, i + p.len()));
        assert(occurs_at(s, p, i + lo));
    }
}

proof fn lemma_join_prepend(x: Seq<char>, rs: Seq<Seq<char>>)
    requires
        rs.len() >= 1,
    ensures
        join_lines(seq![x] + rs) == x + seq!['\n'] + join_lines(rs),
    decreases rs.len(),
{
    let l = seq![x] + rs;
    assert(l.drop_last() =~= seq![x] + rs.drop_last());
    assert(l.last() == rs.last());
    assert(join_lines(l) == join_lines(l.drop_last()) + seq!['\n'] + l.last());
    if rs.len() == 1 {
        assert(seq![x] + rs.drop_last() =~= seq![x]);
        assert(seq![x][0] == x);
        assert(join_lines(seq![x]) == x);
        assert(join_lines(rs) == rs[0]);
    } else {
        lemma_join_prepend(x, rs.drop_last());
        assert(join_lines(rs) == join_lines(rs.drop_last()) + seq!['\n'] + rs.last());
        assert(join_lines(l) =~= x + seq!['\n'] + join_lines(rs));
    }
}

proof fn lemma_body_lines(body: Seq<char>)
    requires
        !is_end_line(body),
        forall|i: int|
            0 <= i < body.len() && #[trigger] body[i] == '\r' ==> i + 1 < body.len() && body[i + 1] != '\n',
    ensures
        lines_of(body + seq!['\n']).len() >= 1,
        join_lines(lines_of(body + seq!['\n'])) == body,
        forall|i: int|
            0 <= i < lines_of(body + seq!['\n']).len() ==> !is_end_line(
                #[trigger] lines_of(body + seq!['\n'])[i],
            ),
    decreases body.len(),
{
    let t = body + seq!['\n'];
    lemma_first_newline_props(t);
    assert(t[body.len() as int] == '\n');
    let k = first_newline(t) as int;
    assert(k <= body.len());
    let head = body.subrange(0, k);
    assert(t.subrange(0, k) =~= head);
    assert(strip_cr(head) == head) by {
        if k > 0 && head.last() == '\r' {
            assert(body[k - 1] == '\r');
            if k < body.len() {
                assert(body[k] == t[k]);
            }
        }
    }
    let end = seq!['-', '-', ' ', 'e', 'n', 'd', ' ', '-', '-'];
    lemma_no_occurrence_in_part(body, 0, k, end);
    if k == body.len() {
        assert(t.subrange(k + 1, t.len() as int) =~= Seq::<char>::empty());
        assert(head =~= body);
        assert(lines_of(Seq::<char>::empty()) == Seq::<Seq<char>>::empty());
        assert(lines_of(t) == seq![strip_cr(head)] + lines_of(t.subrange(k + 1, t.len() as int)));
        assert(lines_of(t) =~= seq![body]);
    } else {
        let rest = body.subrange(k + 1, body.len() as int);
        assert(t.subrange(k + 1, t.len() as int) =~= rest + seq!['\n']);
        lemma_no_occurrence_in_part(body, k + 1, body.len() as int, end);
        assert forall|i: int|
            0 <= i < rest.len() && #[trigger] rest[i] == '\r' implies i + 1 < rest.len() && rest[i + 1] != '\n' by {
            assert(rest[i] == body[i + k + 1]);
        }
        lemma_body_lines(rest);
        let rs = lines_of(rest + seq!['\n']);
        assert(lines_of(t) == seq![head] + rs);
        lemma_join_prepend(head, rs);
        assert(body[k] == '\n');
        assert(head + seq!['\n'] + rest =~= body);
        assert forall|i: int| 0 <= i < lines_of(t).len() implies !is_end_line(
            #[trigger] lines_of(t)[i],
        ) by {
            if i > 0 {
                assert(lines_of(t)[i] == rs[i - 1]);
            }
        }
    }
}

proof fn lemma_run_collecting(title: Seq<char>, acc: Seq<Seq<char>>, ls: Seq<Seq<char>>)
    requires
        forall|i: int| 0 <= i < ls.len() ==> !is_end_line(#[trigger] ls[i]),
    ensures
        run(ReaderModel::Collecting { title, lines: acc }, ls) == (
            ReaderModel::Collecting { title, lines: acc + ls },
            Seq::<Block>::empty(),
        ),
    decreases ls.len(),
{
    if ls.len() == 0 {
        assert(acc + ls =~= acc);
    } else {
        lemma_run_collecting(title, acc, ls.drop_last());
        assert(!is_end_line(ls[ls.len() - 1]));
        assert((acc + ls.drop_last()).push(ls.last()) =~= acc + ls);
        assert(Seq::<Block>::empty() + Seq::<Block>::empty() =~= Seq::<Block>::empty());
    }
}

proof fn lemma_replace_after_title(t: Seq<char>)
    requires
        !has_substring(t, seq!['-', '-']),
    ensures
        replace_all(t + seq![' ', '-', '-'], seq!['-', '-'], seq![]) == t + seq![' '],
    decreases t.len(),
{
    let dd = seq!['-', '-'];
    let s = t + seq![' ', '-', '-'];
    if t.len() == 0 {
        assert(s =~= seq![' ', '-', '-']);
        assert(s.subrange(0, 2)[0] == ' ');
        assert(s.drop_first() =~= dd);
        assert(dd.subrange(0, 2) =~= dd);
        assert(dd.subrange(2, 2) =~= Seq::<char>::empty());
        assert(replace_all(Seq::<char>::empty(), dd, seq![]) == Seq::<char>::empty());
        assert(replace_all(dd, dd, seq![]) =~= Seq::<char>::empty());
        assert(seq![' '] + Seq::<char>::empty() =~= t + seq![' ']);
    } else {
        if t.len() >= 2 {
            assert(!occurs_at(t, dd, 0));
            assert(s.subrange(0, 2) =~= t.subrange(0, 2));
        } else {
            assert(s.subrange(0, 2)[1] == ' ');
        }
        assert(s.subrange(0, 2) != dd);
        lemma_no_occurrence_in_part(t, 1, t.len() as int, dd);
        assert(t.subrange(1, t.len() as int) =~= t.drop_first());
        assert(s.drop_first() =~= t.drop_first() + seq![' ', '-', '-']);
        lemma_replace_after_title(t.drop_first());
        assert(seq![t[0]] + (t.drop_first() + seq![' ']) =~= t + seq![' ']);
    }
}

proof fn lemma_title_line(t: Seq<char>)
    requires
        !has_substring(t, seq!['-', '-']),
        t.len() > 0 ==> !is_white_space(t[0]) && !is_white_space(t.last()),
    ensures
        is_start_line(seq!['-', '-', ' '] + t + seq![' ', '-', '-']),
        title_of(seq!['-', '-', ' '] + t + seq![' ', '-', '-']) == t,
{
    let dd = seq!['-', '-'];
    let h = seq!['-', '-', ' '] + t + seq![' ', '-', '-'];
    assert(h.subrange(0, 2) =~= dd);
    assert(occurs_at(h, dd, 0));
    let h2 = h.subrange(2, h.len() as int);
    assert(h2 =~= seq![' '] + (t + seq![' ', '-', '-']));
    assert(h2.subrange(0, 2)[0] == ' ');
    assert(h2.drop_first() =~= t + seq![' ', '-', '-']);
    lemma_replace_after_title(t);
    let r = seq![' '] + (t + seq![' ']);
    assert(replace_all(h, dd, seq![]) == Seq::<char>::empty() + replace_all(h2, dd, seq![]));
    assert(h2.subrange(0, 2) != dd);
    assert(replace_all(h2, dd, seq![]) == seq![h2[0]] + replace_all(h2.drop_first(), dd, seq![]));
    assert(replace_all(h, dd, seq![]) =~= r);
    assert(r.drop_first() =~= t + seq![' ']);
    let u = t + seq![' '];
    assert(is_white_space(' '));
    assert(trim_start(r) == trim_start(u));
    if t.len() == 0 {
        assert(u.drop_first() =~= Seq::<char>::empty());
        assert(trim_start(u) == trim_start(u.drop_first()));
        assert(trim_start(r) =~= Seq::<char>::empty());
        assert(trim_end(Seq::<char>::empty()) == Seq::<char>::empty());
        assert(trimmed(r) =~= t);
    } else {
        assert(u[0] == t[0]);
        assert(trim_start(r) == u);
        assert(u.drop_last() =~= t);
        assert(trim_end(u) == trim_end(t));
        assert(trimmed(r) == t);
    }
}

proof fn lemma_line_of(x: Seq<char>)
    requires
        forall|i: int| 0 <= i < x.len() ==> x[i] != '\n',
        x.len() > 0,
        x.last() != '\r',
    ensures
        lines_of(x + seq!['\n']) == seq![x],
{
    let t = x + seq!['\n'];
    lemma_first_newline(t, x.len() as int);
    assert(t.subrange(0, x.len() as int) =~= x);
    assert(t.subrange(x.len() as int + 1, t.len() as int) =~= Seq::<char>::empty());
    assert(lines_of(Seq::<char>::empty()) == Seq::<Seq<char>>::empty());
    assert(strip_cr(x) == x);
    assert(lines_of(t) =~= seq![x]);
}

proof fn lemma_block_run(title: Seq<char>, h: Seq<char>, ls: Seq<Seq<char>>, e: Seq<char>)
    requires
        is_start_line(h),
        title_of(h) == title,
        forall|i: int| 0 <= i < ls.len() ==> !is_end_line(#[trigger] ls[i]),
        is_end_line(e),
    ensures
        run(ReaderModel::Seeking, seq![h] + ls + seq![e]) == (
            ReaderModel::Seeking,
            seq![Block { title, body: join_lines(ls) }],
        ),
{
    let c0 = ReaderModel::Collecting { title, lines: seq![] };
    assert(seq![h].drop_last() =~= Seq::<Seq<char>>::empty());
    assert(run(ReaderModel::Seeking, seq![h].drop_last()) == (ReaderModel::Seeking, Seq::<Block>::empty()));
    assert(seq![h].last() == h);
    assert(step(ReaderModel::Seeking, h) == (c0, None::<Block>));
    assert(Seq::<Block>::empty() + Seq::<Block>::empty() =~= Seq::<Block>::empty());
    assert(run(ReaderModel::Seeking, seq![h]) == (c0, Seq::<Block>::empty()));
    lemma_run_collecting(title, seq![], ls);
    assert(Seq::<Seq<char>>::empty() + ls =~= ls);
    lemma_run_append(ReaderModel::Seeking, seq![h], ls);
    let c1 = ReaderModel::Collecting { title, lines: ls };
    assert(seq![e].drop_last() =~= Seq::<Seq<char>>::empty());
    assert(seq![e].last() == e);
    assert(run(c1, seq![e].drop_last()) == (c1, Seq::<Block>::empty()));
    assert(step(c1, e) == (ReaderModel::Seeking, Some(Block { title, body: join_lines(ls) })));
    assert(Seq::<Block>::empty() + seq![Block { title, body: join_lines(ls) }] =~= seq![Block { title, body: join_lines(ls) }]);
    assert(run(c1, seq![e]) == (ReaderModel::Seeking, seq![Block { title, body: join_lines(ls) }]));
    lemma_run_append(ReaderModel::Seeking, seq![h] + ls, seq![e]);
    assert(Seq::<Block>::empty() + Seq::<Block>::empty() + seq![Block { title, body: join_lines(ls) }]
        =~= seq![Block { title, body: join_lines(ls) }]);
}

proof fn lemma_block_lines(b: Block)
    requires
        writable_block(b),
    ensures
        lines_of(render(b) + seq!['\n']) == seq![seq!['-', '-', ' '] + b.title + seq![' ', '-', '-']]
            + lines_of(b.body + seq!['\n']) + seq![seq!['-', '-', ' ', 'e', 'n', 'd', ' ', '-', '-']],
{
    reveal_strlit("-- ");
    reveal_strlit(" --\n");
    reveal_strlit("\n-- end --");
    let h = seq!['-', '-', ' '] + b.title + seq![' ', '-', '-'];
    let e = seq!['-', '-', ' ', 'e', 'n', 'd', ' ', '-', '-'];
    let hn = h + seq!['\n'];
    let bn = b.body + seq!['\n'];
    let en = e + seq!['\n'];
    assert(render(b) + seq!['\n'] =~= hn + (bn + en));
    assert forall|i: int| 0 <= i < h.len() implies h[i] != '\n' by {
        if 3 <= i < 3 + b.title.len() {
            assert(h[i] == b.title[i - 3]);
        }
    }
    lemma_line_of(h);
    lemma_line_of(e);
    lemma_lines_of_append(bn, en);
    lemma_lines_of_append(hn, bn + en);
    assert(seq![h] + (lines_of(bn) + seq![e]) =~= seq![h] + lines_of(bn) + seq![e]);
}

proof fn lemma_one_block(b: Block)
    requires
        writable_block(b),
    ensures
        run(ReaderModel::Seeking, lines_of(render(b) + seq!['\n'])) == (ReaderModel::Seeking, seq![b]),
{
    let h = seq!['-', '-', ' '] + b.title + seq![' ', '-', '-'];
    let e = seq!['-', '-', ' ', 'e', 'n', 'd', ' ', '-', '-'];
    lemma_block_lines(b);
    lemma_body_lines(b.body);
    lemma_title_line(b.title);
    assert(e.subrange(0, e.len() as int) =~= e);
    assert(occurs_at(e, e, 0));
    lemma_block_run(b.title, h, lines_of(b.body + seq!['\n']), e);
}

/// Reading back the snippet file that `render_all` writes for a list of
/// snippets gives that same list, where each snippet can be written so.
pub proof fn lemma_round_trip(bs: Seq<Block>)
    requires
        forall|i: int| 0 <= i < bs.len() ==> writable_block(#[trigger] bs[i]),
    ensures
        parse(lines_of(render_all(bs))) == bs,
        run(ReaderModel::Seeking, lines_of(render_all(bs))).0 == ReaderModel::Seeking,
    decreases bs.len(),
{
    if bs.len() == 0 {
        assert(lines_of(render_all(bs)) =~= Seq::<Seq<char>>::empty());
    } else {
        let front = bs.drop_last();
        lemma_round_trip(front);
        let a = render_all(front);
        let b = render(bs.last()) + seq!['\n'];
        assert(render_all(bs) =~= a + b);
        lemma_lines_of_append(a, b);
        lemma_one_block(bs.last());
        lemma_run_append(ReaderModel::Seeking, lines_of(a), lines_of(b));
        assert(front + seq![bs.last()] =~= bs);
    }
}

proof fn lemma_pull_collecting(
    p: ParserModel,
    lines: Seq<Seq<char>>,
    pos: int,
    title: Seq<char>,
    acc: Seq<Seq<char>>,
    ls: Seq<Seq<char>>,
)
    requires
        p.reader == Some(ReaderModel::Collecting { title, lines: acc }),
        0 <= pos,
        pos + ls.len() < lines.len(),
        lines.subrange(pos, pos + ls.len()) == ls,
        forall|i: int| 0 <= i < ls.len() ==> !is_end_line(#[trigger] ls[i]),
        is_end_line(lines[pos + ls.len()]),
    ensures
        pull(p, lines, pos) == (
            ParserModel { reader: Some(ReaderModel::Seeking), ..p },
            pos + ls.len() + 1,
            Some(Block { title, body: join_lines(acc + ls) }),
        ),
    decreases ls.len(),
{
    if ls.len() == 0 {
        assert(acc + ls =~= acc);
    } else {
        assert(lines[pos] == lines.subrange(pos, pos + ls.len())[0]);
        assert(!is_end_line(ls[0]));
        let p2 = ParserModel {
            reader: Some(ReaderModel::Collecting { title, lines: acc.push(ls[0]) }),
            ..p
        };
        let rest = ls.drop_first();
        assert(lines.subrange(pos + 1, pos + 1 + rest.len()) =~= rest);
        assert forall|i: int| 0 <= i < rest.len() implies !is_end_line(#[trigger] rest[i]) by {
            assert(rest[i] == ls[i + 1]);
        }
        lemma_pull_collecting(p2, lines, pos + 1, title, acc.push(ls[0]), rest);
        assert(acc.push(ls[0]) + rest =~= acc + ls);
        assert(ParserModel { reader: Some(ReaderModel::Seeking), ..p2 } == ParserModel {
            reader: Some(ReaderModel::Seeking),
            ..p
        });
    }
}

/// While the parser looks for the next block, one call of `next_from` on
/// lines that hold, from `pos` on, a block as `render` writes it hands out
/// that same block and reads no line past its end line.
pub proof fn lemma_next_reads_one_written_block(
    p: ParserModel,
    b: Block,
    lines: Seq<Seq<char>>,
    pos: int,
)
    requires
        p.reader == Some(ReaderModel::Seeking),
        writable_block(b),
        0 <= pos,
        pos + lines_of(render(b) + seq!['\n']).len() <= lines.len(),
        lines.subrange(pos, pos + lines_of(render(b) + seq!['\n']).len()) == lines_of(
            render(b) + seq!['\n'],
        ),
    ensures
        pull(p, lines, pos) == (
            ParserModel { reader: Some(ReaderModel::Seeking), ..p },
            pos + lines_of(render(b) + seq!['\n']).len(),
            Some(b),
        ),
{
    let w = lines_of(render(b) + seq!['\n']);
    let h = seq!['-', '-', ' '] + b.title + seq![' ', '-', '-'];
    let e = seq!['-', '-', ' ', 'e', 'n', 'd', ' ', '-', '-'];
    let ls = lines_of(b.body + seq!['\n']);
    lemma_block_lines(b);
    lemma_body_lines(b.body);
    lemma_title_line(b.title);
    assert(e.subrange(0, e.len() as int) =~= e);
    assert(occurs_at(e, e, 0));
    assert(w == seq![h] + ls + seq![e]);
    assert(lines[pos] == w[0]);
    assert(lines[pos + 1 + ls.len()] == w[1 + ls.len() as int]);
    assert forall|i: int| 0 <= i < ls.len() implies lines[pos + 1 + i] == #[trigger] ls[i] by {
        assert(lines[pos + 1 + i] == lines.subrange(pos, pos + w.len())[1 + i]);
        assert(w[1 + i] == ls[i]);
    }
    assert(lines.subrange(pos + 1, pos + 1 + ls.len()) =~= ls);
    let p2 = ParserModel {
        reader: Some(ReaderModel::Collecting { title: b.title, lines: seq![] }),
        ..p
    };
    lemma_pull_collecting(p2, lines, pos + 1, b.title, seq![], ls);
    assert(Seq::<Seq<char>>::empty() + ls =~= ls);
    assert(ParserModel { reader: Some(ReaderModel::Seeking), ..p2 } == ParserModel {
        reader: Some(ReaderModel::Seeking),
        ..p
    });
}

} // verus!
