//! What holds of a whole session of iteration, proved over the models that
//! the parser's and the reader's contracts speak of.
use vstd::prelude::*;
use crate::parser::{collect, pull, replay, advance, ParserModel, StepModel};
use crate::reader::{parse, run, step, opt_seq, ReaderModel};
use crate::snippet::Block;

verus! {

/// What `k` calls of `next_from` in a row hand out, from parser `p` on a file
/// with lines `lines` of which those before `pos` have been read.
pub open spec fn pulls(p: ParserModel, lines: Seq<Seq<char>>, pos: int, k: nat) -> Seq<Option<Block>>
    decreases k,
{
    if k == 0 {
        seq![]
    } else {
        let (p2, pos2, o) = pull(p, lines, pos);
        seq![o] + pulls(p2, lines, pos2, (k - 1) as nat)
    }
}

/// One call of `next_from` keeps the parser's path and its snippets.
pub proof fn lemma_pull_keeps_contents(p: ParserModel, lines: Seq<Seq<char>>, pos: int)
    ensures
        pull(p, lines, pos).0.path == p.path,
        pull(p, lines, pos).0.snippets == p.snippets,
    decreases lines.len() - pos,
{
    if p.reader is Some && 0 <= pos < lines.len() {
        let (p2, s) = advance(p, Some(lines[pos]));
        match s {
            StepModel::Block(b) => {},
            _ => {
                lemma_pull_keeps_contents(p2, lines, pos + 1);
            },
        }
    }
}

/// Iterating does not change what `get_snippets` returns: after any call
/// of `next_from`, every file gives the same snippets as before.
pub proof fn lemma_collect_unaffected_by_next(
    p: ParserModel,
    lines: Seq<Seq<char>>,
    pos: int,
    file_lines: Seq<Seq<char>>,
)
    ensures
        collect(pull(p, lines, pos).0, file_lines) == collect(p, file_lines),
{
    lemma_pull_keeps_contents(p, lines, pos);
}

/// Once the file is done with, the snippets added by hand come out in
/// order from the parser's cursor, and after them nothing.
pub proof fn lemma_replay_pulls(p: ParserModel, lines: Seq<Seq<char>>, pos: int, k: nat)
    requires
        p.reader is None,
    ensures
        pulls(p, lines, pos, k).len() == k,
        forall|i: int|
            0 <= i < k ==> #[trigger] pulls(p, lines, pos, k)[i] == if !p.exhausted && p.index + i
                < p.snippets.len() {
                Some(p.snippets[p.index + i])
            } else {
                None::<Block>
            },
    decreases k,
{
    if k > 0 {
        assert(ParserModel { reader: None, ..p } == p);
        let (p2, pos2, o) = pull(p, lines, pos);
        lemma_replay_pulls(p2, lines, pos2, (k - 1) as nat);
        let rest = pulls(p2, lines, pos2, (k - 1) as nat);
        assert forall|i: int| 0 <= i < k implies #[trigger] pulls(p, lines, pos, k)[i] == if !p.exhausted
            && p.index + i < p.snippets.len() {
            Some(p.snippets[p.index + i])
        } else {
            None::<Block>
        } by {
            if i > 0 {
                assert(pulls(p, lines, pos, k)[i] == rest[i - 1]);
            }
        }
    }
}

/// Once the sequence has run out, each further call of `next_from` hands
/// out nothing and changes nothing, and so does every call after snippets
/// are added: a sequence that has run out never comes back.
pub proof fn lemma_exhausted_stays_exhausted(
    p: ParserModel,
    lines: Seq<Seq<char>>,
    pos: int,
    k: nat,
    added: Seq<Block>,
)
    requires
        p.reader is None,
        p.exhausted,
    ensures
        pull(p, lines, pos) == (p, pos, None::<Block>),
        pulls(p, lines, pos, k) == Seq::new(k, |i: int| None::<Block>),
        pulls(ParserModel { snippets: p.snippets + added, ..p }, lines, pos, k) == Seq::new(
            k,
            |i: int| None::<Block>,
        ),
{
    assert(ParserModel { reader: None, ..p } == p);
    lemma_replay_pulls(p, lines, pos, k);
    assert(pulls(p, lines, pos, k) =~= Seq::new(k, |i: int| None::<Block>));
    let q = ParserModel { snippets: p.snippets + added, ..p };
    lemma_replay_pulls(q, lines, pos, k);
    assert(pulls(q, lines, pos, k) =~= Seq::new(k, |i: int| None::<Block>));
}

/// A snippet added once the file is done with, while the sequence has not
/// yet run out, comes out in that same session after the snippets not yet
/// handed out, and then the sequence runs out.
pub proof fn lemma_added_during_replay_is_seen(
    p: ParserModel,
    x: Block,
    lines: Seq<Seq<char>>,
    pos: int,
)
    requires
        p.reader is None,
        !p.exhausted,
        p.index <= p.snippets.len(),
    ensures
        ({
            let q = ParserModel { snippets: p.snippets.push(x), ..p };
            let k = (p.snippets.len() - p.index + 2) as nat;
            pulls(q, lines, pos, k) == p.snippets.subrange(
                p.index as int,
                p.snippets.len() as int,
            ).map_values(|b: Block| Some(b)).push(Some(x)).push(None)
        }),
{
    let q = ParserModel { snippets: p.snippets.push(x), ..p };
    let k = (p.snippets.len() - p.index + 2) as nat;
    lemma_replay_pulls(q, lines, pos, k);
    assert(pulls(q, lines, pos, k) =~= p.snippets.subrange(
        p.index as int,
        p.snippets.len() as int,
    ).map_values(|b: Block| Some(b)).push(Some(x)).push(None));
}

/// The parser and the position of the next line to read after `k` calls of
/// `next_from`.
pub open spec fn after(p: ParserModel, lines: Seq<Seq<char>>, pos: int, k: nat) -> (ParserModel, int)
    decreases k,
{
    if k == 0 {
        (p, pos)
    } else {
        let (p2, pos2, o) = pull(p, lines, pos);
        after(p2, lines, pos2, (k - 1) as nat)
    }
}

proof fn lemma_replay_after(p: ParserModel, lines: Seq<Seq<char>>, pos: int, k: nat)
    requires
        p.reader is None,
        !p.exhausted,
        p.index + k <= p.snippets.len(),
    ensures
        after(p, lines, pos, k).0 == (ParserModel { index: p.index + k, ..p }),
    decreases k,
{
    if k == 0 {
        assert(ParserModel { index: p.index + k, ..p } == p);
    } else {
        assert(ParserModel { reader: None, ..p } == p);
        let (p2, pos2, o) = pull(p, lines, pos);
        lemma_replay_after(p2, lines, pos2, (k - 1) as nat);
    }
}

/// Reading `a` and then `b` is reading `a + b`.
pub proof fn lemma_run_append(st: ReaderModel, a: Seq<Seq<char>>, b: Seq<Seq<char>>)
    ensures
        run(st, a + b) == (run(run(st, a).0, b).0, run(st, a).1 + run(run(st, a).0, b).1),
    decreases b.len(),
{
    if b.len() == 0 {
        assert(a + b =~= a);
        assert(run(st, a).1 + Seq::<Block>::empty() =~= run(st, a).1);
    } else {
        assert((a + b).drop_last() =~= a + b.drop_last());
        lemma_run_append(st, a, b.drop_last());
        assert((a + b).last() == b.last());
        let s1 = run(st, a).0;
        let (sb, bsb) = run(s1, b.drop_last());
        let (s2, ob) = step(sb, b.last());
        assert(run(st, a).1 + bsb + opt_seq(ob) =~= run(st, a).1 + (bsb + opt_seq(ob)));
    }
}

/// The blocks read from the first `i` lines are the first of the file's blocks.
pub proof fn lemma_run_prefix(lines: Seq<Seq<char>>, i: int)
    requires
        0 <= i <= lines.len(),
    ensures
        run(ReaderModel::Seeking, lines.take(i)).1.len() <= parse(lines).len(),
        parse(lines).take(run(ReaderModel::Seeking, lines.take(i)).1.len() as int)
            == run(ReaderModel::Seeking, lines.take(i)).1,
{
    lemma_run_append(ReaderModel::Seeking, lines.take(i), lines.skip(i));
    assert(lines.take(i) + lines.skip(i) =~= lines);
    let a = run(ReaderModel::Seeking, lines.take(i)).1;
    assert(parse(lines).take(a.len() as int) =~= a);
}

/// Where the parser stands while it reads its file: the lines before `pos`
/// are read, and they gave the first `j` blocks of the file.
pub open spec fn streaming_at(p: ParserModel, lines: Seq<Seq<char>>, pos: int, j: int) -> bool {
    &&& 0 <= pos <= lines.len()
    &&& p.reader == Some(run(ReaderModel::Seeking, lines.take(pos)).0)
    &&& run(ReaderModel::Seeking, lines.take(pos)).1 == parse(lines).take(j)
    &&& 0 <= j <= parse(lines).len()
    &&& p.index == 0
    &&& !p.exhausted
}

proof fn lemma_pull_streaming(p: ParserModel, lines: Seq<Seq<char>>, pos: int, j: int)
    requires
        streaming_at(p, lines, pos, j),
    ensures
        ({
            let (p2, pos2, o) = pull(p, lines, pos);
            &&& p2.path == p.path
            &&& p2.snippets == p.snippets
            &&& j < parse(lines).len() ==> o == Some(parse(lines)[j]) && streaming_at(p2, lines, pos2, j + 1)
            &&& j == parse(lines).len() ==> (p2, o) == replay(ParserModel { reader: None, ..p })
        }),
    decreases lines.len() - pos,
{
    lemma_run_prefix(lines, pos);
    if pos < lines.len() {
        let st = p.reader->0;
        assert(lines.take(pos + 1).drop_last() =~= lines.take(pos));
        assert(lines.take(pos + 1).last() == lines[pos]);
        let (st2, ob) = step(st, lines[pos]);
        let p2 = ParserModel { reader: Some(st2), ..p };
        lemma_run_prefix(lines, pos + 1);
        match ob {
            Some(b) => {
                let got = run(ReaderModel::Seeking, lines.take(pos + 1)).1;
                assert(got == parse(lines).take(j).push(b));
                assert(got.len() == j + 1);
                assert(parse(lines).take(j + 1)[j] == parse(lines)[j]);
                assert(got[j] == b);
            },
            None => {
                assert(run(ReaderModel::Seeking, lines.take(pos + 1)).1 =~= parse(lines).take(j));
                lemma_pull_streaming(p2, lines, pos + 1, j);
            },
        }
    } else {
        assert(lines.take(pos) =~= lines);
        assert(parse(lines).take(j).len() == j);
    }
}

/// What a session hands out from a parser in the state `streaming_at`.
proof fn lemma_pulls_streaming(p: ParserModel, lines: Seq<Seq<char>>, pos: int, j: int, k: nat)
    requires
        streaming_at(p, lines, pos, j),
    ensures
        pulls(p, lines, pos, k).len() == k,
        forall|i: int|
            0 <= i < k ==> #[trigger] pulls(p, lines, pos, k)[i] == if j + i < parse(lines).len()
                + p.snippets.len() {
                Some((parse(lines) + p.snippets)[j + i])
            } else {
                None::<Block>
            },
    decreases k,
{
    if k > 0 {
        let n = parse(lines).len();
        let all = parse(lines) + p.snippets;
        let (p2, pos2, o) = pull(p, lines, pos);
        lemma_pull_streaming(p, lines, pos, j);
        let rest = pulls(p2, lines, pos2, (k - 1) as nat);
        if j < n {
            lemma_pulls_streaming(p2, lines, pos2, j + 1, (k - 1) as nat);
        } else {
            lemma_replay_pulls(p2, lines, pos2, (k - 1) as nat);
        }
        assert forall|i: int| 0 <= i < k implies #[trigger] pulls(p, lines, pos, k)[i] == if j + i < n
            + p.snippets.len() {
            Some(all[j + i])
        } else {
            None::<Block>
        } by {
            if i > 0 {
                assert(pulls(p, lines, pos, k)[i] == rest[i - 1]);
            }
        }
    }
}

/// A parser made for a file with `N` blocks, to which `M` snippets were added
/// before any call of `next_from`, hands out exactly `N + M` snippets, the
/// file's in order and then the added ones in order, and after that nothing,
/// however often it is called.
pub proof fn lemma_file_then_added(
    path: Seq<char>,
    added: Seq<Block>,
    lines: Seq<Seq<char>>,
    k: nat,
)
    ensures
        ({
            let p = ParserModel {
                path: Some(path),
                reader: Some(ReaderModel::Seeking),
                snippets: added,
                index: 0,
                exhausted: false,
            };
            let all = parse(lines) + added;
            &&& pulls(p, lines, 0, k).len() == k
            &&& forall|i: int|
                0 <= i < k ==> #[trigger] pulls(p, lines, 0, k)[i] == if i < all.len() {
                    Some(all[i])
                } else {
                    None::<Block>
                }
        }),
{
    let p = ParserModel {
        path: Some(path),
        reader: Some(ReaderModel::Seeking),
        snippets: added,
        index: 0,
        exhausted: false,
    };
    assert(lines.take(0) =~= Seq::<Seq<char>>::empty());
    assert(parse(lines).take(0) =~= Seq::<Block>::empty());
    lemma_pulls_streaming(p, lines, 0, 0, k);
}

proof fn lemma_streaming_after(p: ParserModel, lines: Seq<Seq<char>>, pos: int, j: int, k: nat)
    requires
        streaming_at(p, lines, pos, j),
        j + k > parse(lines).len(),
        j + k <= parse(lines).len() + p.snippets.len(),
    ensures
        after(p, lines, pos, k).0 == (ParserModel {
            reader: None,
            index: (j + k - parse(lines).len()) as nat,
            ..p
        }),
    decreases k,
{
    let (p2, pos2, o) = pull(p, lines, pos);
    lemma_pull_streaming(p, lines, pos, j);
    if j < parse(lines).len() {
        lemma_streaming_after(p2, lines, pos2, j + 1, (k - 1) as nat);
    } else {
        lemma_replay_after(p2, lines, pos2, (k - 1) as nat);
    }
}

/// In a session over a file with `N` blocks and `M` snippets added before
/// it began, a snippet added after `N + j` calls of `next_from`, with
/// `1 <= j <= M`, comes out in that session: the next calls hand out the
/// added snippets not yet handed out, then the new one, then nothing.
pub proof fn lemma_added_in_session_is_seen(
    path: Seq<char>,
    added: Seq<Block>,
    lines: Seq<Seq<char>>,
    j: nat,
    x: Block,
)
    requires
        1 <= j <= added.len(),
    ensures
        ({
            let p = ParserModel {
                path: Some(path),
                reader: Some(ReaderModel::Seeking),
                snippets: added,
                index: 0,
                exhausted: false,
            };
            let (q, pos) = after(p, lines, 0, parse(lines).len() + j);
            let q2 = ParserModel { snippets: q.snippets.push(x), ..q };
            pulls(q2, lines, pos, (added.len() - j + 2) as nat) == added.subrange(
                j as int,
                added.len() as int,
            ).map_values(|b: Block| Some(b)).push(Some(x)).push(None)
        }),
{
    let p = ParserModel {
        path: Some(path),
        reader: Some(ReaderModel::Seeking),
        snippets: added,
        index: 0,
        exhausted: false,
    };
    assert(lines.take(0) =~= Seq::<Seq<char>>::empty());
    assert(parse(lines).take(0) =~= Seq::<Block>::empty());
    lemma_streaming_after(p, lines, 0, 0, parse(lines).len() + j);
    let (q, pos) = after(p, lines, 0, parse(lines).len() + j);
    lemma_added_during_replay_is_seen(q, x, lines, pos);
}

} // verus!
