//! The block reader: a state machine that takes the lines of a snippet file
//! one at a time and hands out each block as soon as its end line is seen.
use vstd::prelude::*;
use vstd::string::StringExecFns;
use crate::snippet::{Block, Snippet};
use crate::text::{has_substring, replace_all, trimmed, str_contains, str_replace, str_trim};

verus! {

/// The character views of a list of lines.
pub open spec fn line_views(v: Seq<String>) -> Seq<Seq<char>> {
    v.map_values(|l: String| l@)
}

/// What a list of snippets holds.
pub open spec fn blocks_of(v: Seq<Snippet>) -> Seq<Block> {
    v.map_values(|s: Snippet| s@)
}

/// The lines of a block's text put back together: a `'\n'` between each two.
pub open spec fn join_lines(ls: Seq<Seq<char>>) -> Seq<char>
    decreases ls.len(),
{
    if ls.len() == 0 {
        seq![]
    } else if ls.len() == 1 {
        ls[0]
    } else {
        join_lines(ls.drop_last()) + seq!['\n'] + ls.last()
    }
}

/// A line that opens a block.
pub open spec fn is_start_line(l: Seq<char>) -> bool {
    has_substring(l, seq!['-', '-'])
}

/// A line that closes a block.
pub open spec fn is_end_line(l: Seq<char>) -> bool {
    has_substring(l, seq!['-', '-', ' ', 'e', 'n', 'd', ' ', '-', '-'])
}

/// The title that a start line gives: its `--` removed, whitespace trimmed.
pub open spec fn title_of(l: Seq<char>) -> Seq<char> {
    trimmed(replace_all(l, seq!['-', '-'], seq![]))
}

/// Where the reader stands between two lines.
pub enum ReaderModel {
    /// Looking for the line that opens the next block.
    Seeking,
    /// Inside a block with this title, holding the lines read so far.
    Collecting { title: Seq<char>, lines: Seq<Seq<char>> },
}

/// One line read: the reader's next state, and the block that the line ends.
pub open spec fn step(st: ReaderModel, line: Seq<char>) -> (ReaderModel, Option<Block>) {
    match st {
        ReaderModel::Seeking => {
            if is_start_line(line) {
                (ReaderModel::Collecting { title: title_of(line), lines: seq![] }, None)
            } else {
                (ReaderModel::Seeking, None)
            }
        },
        ReaderModel::Collecting { title, lines } => {
            if is_end_line(line) {
                (ReaderModel::Seeking, Some(Block { title, body: join_lines(lines) }))
            } else {
                (ReaderModel::Collecting { title, lines: lines.push(line) }, None)
            }
        },
    }
}

/// What an optional snippet holds.
pub open spec fn opt_block(o: Option<Snippet>) -> Option<Block> {
    match o {
        Some(s) => Some(s@),
        None => None,
    }
}

pub open spec fn opt_seq(o: Option<Block>) -> Seq<Block> {
    match o {
        Some(b) => seq![b],
        None => seq![],
    }
}

/// The lines read in order from `st`: the state reached and the blocks handed out.
pub open spec fn run(st: ReaderModel, lines: Seq<Seq<char>>) -> (ReaderModel, Seq<Block>)
    decreases lines.len(),
{
    if lines.len() == 0 {
        (st, seq![])
    } else {
        let (s1, bs) = run(st, lines.drop_last());
        let (s2, ob) = step(s1, lines.last());
        (s2, bs + opt_seq(ob))
    }
}

/// The blocks of a snippet file with these lines. A block that is still open
/// when the lines run out gives nothing.
pub open spec fn parse(lines: Seq<Seq<char>>) -> Seq<Block> {
    run(ReaderModel::Seeking, lines).1
}

#[derive(Debug)]
enum ReaderState {
    Seeking,
    Collecting { title: String, lines: Vec<String> },
}

/// Reads blocks from a stream of lines, one line at a time.
#[derive(Debug)]
pub struct BlockReader {
    state: ReaderState,
}

impl View for BlockReader {
    type V = ReaderModel;

    closed spec fn view(&self) -> ReaderModel {
        match self.state {
            ReaderState::Seeking => ReaderModel::Seeking,
            ReaderState::Collecting { title, lines } => ReaderModel::Collecting {
                title: title@,
                lines: line_views(lines@),
            },
        }
    }
}

fn join_lines_exec(lines: &Vec<String>) -> (r: String)
    ensures
        r@ == join_lines(line_views(lines@)),
{
    let mut r = String::new();
    let n = lines.len();
    let mut i: usize = 0;
    while i < n
        invariant
            n == lines@.len(),
            i <= n,
            r@ == join_lines(line_views(lines@).take(i as int)),
        decreases n - i,
    {
        proof {
            reveal_strlit("\n");
        }
        if i > 0 {
            r.append("\n");
        }
        r.append(lines[i].as_str());
        proof {
            let ls = line_views(lines@).take(i + 1);
            assert(ls.drop_last() =~= line_views(lines@).take(i as int));
            assert(r@ =~= join_lines(ls));
        }
        i += 1;
    }
    assert(line_views(lines@).take(n as int) =~= line_views(lines@));
    r
}

impl BlockReader {
    /// A reader that has read nothing yet.
    pub fn new() -> (r: BlockReader)
        ensures
            r@ == ReaderModel::Seeking,
    {
        BlockReader { state: ReaderState::Seeking }
    }

    /// Reads one line. Where it ends a block, that block is returned.
    pub fn feed(&mut self, line: String) -> (r: Option<Snippet>)
        ensures
            (final(self)@, opt_block(r)) == step(old(self)@, line@),
    {
        let mut st = ReaderState::Seeking;
        std::mem::swap(&mut st, &mut self.state);
        match st {
            ReaderState::Seeking => {
                proof {
                    reveal_strlit("--");
                }
                if str_contains(line.as_str(), "--") {
                    assert("--"@ =~= seq!['-', '-']);
                    let without = str_replace(line.as_str(), "--", "");
                    proof {
                        reveal_strlit("");
                    }
                    assert(""@ =~= Seq::<char>::empty());
                    let title = String::from_str(str_trim(without.as_str()));
                    self.state = ReaderState::Collecting { title, lines: Vec::new() };
                    proof {
                        assert(line_views(Seq::<String>::empty()) =~= Seq::<Seq<char>>::empty());
                    }
                    None
                } else {
                    assert("--"@ =~= seq!['-', '-']);
                    None
                }
            },
            ReaderState::Collecting { title, mut lines } => {
                proof {
                    reveal_strlit("-- end --");
                }
                assert("-- end --"@ =~= seq!['-', '-', ' ', 'e', 'n', 'd', ' ', '-', '-']);
                if str_contains(line.as_str(), "-- end --") {
                    let body = join_lines_exec(&lines);
                    Some(Snippet::new(title, body))
                } else {
                    let ghost old_lines = lines@;
                    lines.push(line);
                    assert(line_views(lines@) =~= line_views(old_lines).push(line@));
                    self.state = ReaderState::Collecting { title, lines };
                    None
                }
            },
        }
    }
}

/// All blocks of a snippet file with these lines, read in one pass.
pub fn parse_lines(lines: &Vec<String>) -> (r: Vec<Snippet>)
    ensures
        blocks_of(r@) == parse(line_views(lines@)),
{
    let mut reader = BlockReader::new();
    let mut out: Vec<Snippet> = Vec::new();
    let n = lines.len();
    let mut i: usize = 0;
    while i < n
        invariant
            n == lines@.len(),
            i <= n,
            (reader@, blocks_of(out@)) == run(ReaderModel::Seeking, line_views(lines@).take(i as int)),
        decreases n - i,
    {
        let ghost prev = out@;
        let got = reader.feed(lines[i].clone());
        proof {
            let ls = line_views(lines@).take(i + 1);
            assert(ls.drop_last() =~= line_views(lines@).take(i as int));
        }
        match got {
            Some(s) => {
                out.push(s);
                assert(blocks_of(out@) =~= blocks_of(prev) + seq![s@]);
            },
            None => {
                assert(blocks_of(out@) =~= blocks_of(prev) + Seq::<Block>::empty());
            },
        }
        i += 1;
    }
    assert(line_views(lines@).take(n as int) =~= line_views(lines@));
    out
}

} // verus!
