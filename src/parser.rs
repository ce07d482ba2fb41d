//! The snippet sequence: the blocks of a snippet file, read as they are asked
//! for, followed by the snippets added by hand.
use vstd::prelude::*;
use vstd::string::StringExecFns;
use crate::reader::{
    blocks_of, line_views, opt_block, parse, parse_lines, step, BlockReader, ReaderModel,
};
use crate::snippet::{render, Block, Snippet};

verus! {

/// What a parser holds: the file's path, where reading the file stands
/// (`None` once the file is done with, or where there is none), the snippets
/// added by hand, how many of those have been handed out, and whether the
/// sequence has run out: once it has, it hands out nothing ever after.
pub struct ParserModel {
    pub path: Option<Seq<char>>,
    pub reader: Option<ReaderModel>,
    pub snippets: Seq<Block>,
    pub index: nat,
    pub exhausted: bool,
}

/// The outcome of one step of iteration.
pub enum StepModel {
    Block(Block),
    NeedLine,
    End,
}

/// The next snippet added by hand, once the file is done with. The first
/// time none is left, the sequence has run out for good.
pub open spec fn replay(p: ParserModel) -> (ParserModel, Option<Block>) {
    if p.exhausted {
        (p, None)
    } else if p.index < p.snippets.len() {
        (ParserModel { index: p.index + 1, ..p }, Some(p.snippets[p.index as int]))
    } else {
        (ParserModel { exhausted: true, ..p }, None)
    }
}

pub open spec fn step_of(o: Option<Block>) -> StepModel {
    match o {
        Some(b) => StepModel::Block(b),
        None => StepModel::End,
    }
}

/// One step of iteration. While the file is read, `line` is its next line, or
/// `None` where it has ended or could not be read; after that it is ignored.
pub open spec fn advance(p: ParserModel, line: Option<Seq<char>>) -> (ParserModel, StepModel) {
    match p.reader {
        Some(st) => match line {
            Some(l) => {
                let (st2, ob) = step(st, l);
                let p2 = ParserModel { reader: Some(st2), ..p };
                match ob {
                    Some(b) => (p2, StepModel::Block(b)),
                    None => (p2, StepModel::NeedLine),
                }
            },
            None => {
                let (p2, o) = replay(ParserModel { reader: None, ..p });
                (p2, step_of(o))
            },
        },
        None => {
            let (p2, o) = replay(p);
            (p2, step_of(o))
        },
    }
}

/// One call of `next` on a file whose lines are `lines`, of which those
/// before `pos` have been read: the parser after it, the position of the
/// next line to read, and the snippet handed out.
pub open spec fn pull(p: ParserModel, lines: Seq<Seq<char>>, pos: int) -> (ParserModel, int, Option<Block>)
    decreases lines.len() - pos,
{
    if p.reader is Some && 0 <= pos < lines.len() {
        let (p2, s) = advance(p, Some(lines[pos]));
        match s {
            StepModel::Block(b) => (p2, pos + 1, Some(b)),
            _ => pull(p2, lines, pos + 1),
        }
    } else {
        let (p2, o) = replay(ParserModel { reader: None, ..p });
        (p2, pos, o)
    }
}

/// Every snippet: those of the file (read afresh, its lines being
/// `file_lines`) and then those added by hand.
pub open spec fn collect(p: ParserModel, file_lines: Seq<Seq<char>>) -> Seq<Block> {
    if p.path is Some {
        parse(file_lines) + p.snippets
    } else {
        p.snippets
    }
}

/// The first of `bs` with this title.
pub open spec fn first_titled(bs: Seq<Block>, title: Seq<char>) -> Option<Block>
    decreases bs.len(),
{
    if bs.len() == 0 {
        None
    } else if bs[0].title == title {
        Some(bs[0])
    } else {
        first_titled(bs.drop_first(), title)
    }
}

/// A snippet file holding `bs` in order, each block followed by a `'\n'`.
pub open spec fn render_all(bs: Seq<Block>) -> Seq<char>
    decreases bs.len(),
{
    if bs.len() == 0 {
        seq![]
    } else {
        render_all(bs.drop_last()) + render(bs.last()) + seq!['\n']
    }
}

/// The outcome of one step of iteration.
#[derive(Debug, PartialEq)]
pub enum Step {
    /// The next snippet.
    Block(Snippet),
    /// A line was read and no snippet is complete yet: hand over the next line.
    NeedLine,
    /// No snippets are left.
    End,
}

pub open spec fn step_view(s: Step) -> StepModel {
    match s {
        Step::Block(b) => StepModel::Block(b@),
        Step::NeedLine => StepModel::NeedLine,
        Step::End => StepModel::End,
    }
}

/// Parses a snippet file, or holds snippets made by hand, or both.
#[derive(Debug)]
pub struct SnippetParser {
    path: Option<String>,
    reader: Option<BlockReader>,
    snippets: Vec<Snippet>,
    snippet_index: usize,
    exhausted: bool,
}

impl View for SnippetParser {
    type V = ParserModel;

    closed spec fn view(&self) -> ParserModel {
        ParserModel {
            path: match self.path {
                Some(p) => Some(p@),
                None => None,
            },
            reader: match self.reader {
                Some(r) => Some(r@),
                None => None,
            },
            snippets: blocks_of(self.snippets@),
            index: self.snippet_index as nat,
            exhausted: self.exhausted,
        }
    }
}

fn copy_all(v: &Vec<Snippet>, out: &mut Vec<Snippet>)
    ensures
        blocks_of(final(out)@) == blocks_of(old(out)@) + blocks_of(v@),
{
    let ghost start = blocks_of(out@);
    let n = v.len();
    let mut i: usize = 0;
    while i < n
        invariant
            n == v@.len(),
            i <= n,
            blocks_of(out@) == start + blocks_of(v@).take(i as int),
        decreases n - i,
    {
        let ghost prev = out@;
        out.push(v[i].clone());
        assert(blocks_of(out@) =~= blocks_of(prev) + seq![v@[i as int]@]);
        assert(blocks_of(v@).take(i + 1) =~= blocks_of(v@).take(i as int) + seq![v@[i as int]@]);
        i += 1;
    }
    assert(blocks_of(v@).take(n as int) =~= blocks_of(v@));
}

impl SnippetParser {
    /// A parser with no file and no snippets.
    pub fn new() -> (r: SnippetParser)
        ensures
            r@ == (ParserModel {
                path: None,
                reader: None,
                snippets: seq![],
                index: 0,
                exhausted: false,
            }),
    {
        let r = SnippetParser {
            path: None,
            reader: None,
            snippets: Vec::new(),
            snippet_index: 0,
            exhausted: false,
        };
        assert(r@.snippets =~= Seq::<Block>::empty());
        r
    }

    /// A parser for the snippet file at `path`, none of whose lines has been read.
    pub fn read(path: String) -> (r: SnippetParser)
        ensures
            r@ == (ParserModel {
                path: Some(path@),
                reader: Some(ReaderModel::Seeking),
                snippets: seq![],
                index: 0,
                exhausted: false,
            }),
    {
        let r = SnippetParser {
            path: Some(path),
            reader: Some(BlockReader::new()),
            snippets: Vec::new(),
            snippet_index: 0,
            exhausted: false,
        };
        assert(r@.snippets =~= Seq::<Block>::empty());
        r
    }

    /// A parser with no file, holding the given snippets.
    pub fn from_snippets(snips: Vec<Snippet>) -> (r: SnippetParser)
        ensures
            r@ == (ParserModel {
                path: None,
                reader: None,
                snippets: blocks_of(snips@),
                index: 0,
                exhausted: false,
            }),
    {
        SnippetParser {
            path: None,
            reader: None,
            snippets: snips,
            snippet_index: 0,
            exhausted: false,
        }
    }

    /// The path of the parser's file, if it has one.
    pub fn path(&self) -> (r: Option<&str>)
        ensures
            r is Some == self@.path is Some,
            r is Some ==> r->0@ == self@.path->0,
    {
        match &self.path {
            Some(p) => Some(p.as_str()),
            None => None,
        }
    }

    /// Whether the parser still reads its file, and so wants its next line.
    pub fn is_streaming(&self) -> (r: bool)
        ensures
            r == self@.reader is Some,
    {
        self.reader.is_some()
    }

    /// Adds a snippet after all the others.
    pub fn add_snippet(&mut self, snip: Snippet)
        ensures
            final(self)@ == (ParserModel { snippets: old(self)@.snippets.push(snip@), ..old(self)@ }),
    {
        let ghost prev = self.snippets@;
        self.snippets.push(snip);
        assert(blocks_of(self.snippets@) =~= blocks_of(prev).push(snip@));
    }

    fn replay_next(&mut self) -> (r: Option<Snippet>)
        ensures
            (final(self)@, opt_block(r)) == replay(old(self)@),
    {
        if self.exhausted {
            None
        } else if self.snippet_index < self.snippets.len() {
            let s = self.snippets[self.snippet_index].clone();
            self.snippet_index = self.snippet_index + 1;
            Some(s)
        } else {
            self.exhausted = true;
            None
        }
    }

    /// One step of iteration. While the parser reads its file, `line` is the
    /// file's next line, or `None` where the file has ended or could not be
    /// read; then the snippets added by hand follow. Afterwards `line` is
    /// ignored.
    pub fn advance(&mut self, line: Option<String>) -> (r: Step)
        ensures
            (final(self)@, step_view(r)) == advance(
                old(self)@,
                match line {
                    Some(l) => Some(l@),
                    None => None,
                },
            ),
    {
        if self.reader.is_some() {
            match line {
                Some(l) => {
                    let mut reader = self.reader.take().unwrap();
                    let got = reader.feed(l);
                    self.reader = Some(reader);
                    match got {
                        Some(s) => Step::Block(s),
                        None => Step::NeedLine,
                    }
                },
                None => {
                    self.reader = None;
                    match self.replay_next() {
                        Some(s) => Step::Block(s),
                        None => Step::End,
                    }
                },
            }
        } else {
            match self.replay_next() {
                Some(s) => Step::Block(s),
                None => Step::End,
            }
        }
    }

    /// The next snippet, where the file's lines are `lines` and `*pos` is
    /// the index of the next line to read. The file's blocks come first, one
    /// per call; once its lines are done, the snippets added by hand.
    pub fn next_from(&mut self, lines: &Vec<String>, pos: &mut usize) -> (r: Option<Snippet>)
        ensures
            pull(old(self)@, line_views(lines@), *old(pos) as int) == (
                final(self)@,
                *final(pos) as int,
                opt_block(r),
            ),
    {
        let ghost goal = pull(self@, line_views(lines@), *pos as int);
        while self.reader.is_some() && *pos < lines.len()
            invariant
                pull(self@, line_views(lines@), *pos as int) == goal,
                goal == pull(old(self)@, line_views(lines@), *old(pos) as int),
            decreases lines@.len() - *pos,
        {
            let l = lines[*pos].clone();
            assert(line_views(lines@)[*pos as int] == l@);
            let ghost before = self@;
            let ghost p0 = *pos as int;
            assert(before.reader is Some);
            let s = self.advance(Some(l));
            *pos = *pos + 1;
            assert(pull(before, line_views(lines@), p0) == match step_view(s) {
                StepModel::Block(b) => (self@, p0 + 1, Some(b)),
                _ => pull(self@, line_views(lines@), p0 + 1),
            });
            match s {
                Step::Block(b) => {
                    return Some(b);
                },
                _ => {},
            }
        }
        self.reader = None;
        self.replay_next()
    }

    /// Every snippet: the blocks of the file, whose lines, read afresh, are
    /// `file_lines`, then those added by hand. Where the parser has no file,
    /// `file_lines` is not used.
    pub fn get_snippets(&self, file_lines: &Vec<String>) -> (r: Vec<Snippet>)
        ensures
            blocks_of(r@) == collect(self@, line_views(file_lines@)),
    {
        let mut out: Vec<Snippet> = if self.path.is_some() {
            parse_lines(file_lines)
        } else {
            Vec::new()
        };
        assert(self.path.is_none() ==> blocks_of(out@) =~= Seq::<Block>::empty());
        copy_all(&self.snippets, &mut out);
        out
    }

    /// The first snippet, in the order of `get_snippets`, whose title is `title`.
    pub fn get_snippet(&self, file_lines: &Vec<String>, title: &str) -> (r: Option<Snippet>)
        ensures
            opt_block(r) == first_titled(collect(self@, line_views(file_lines@)), title@),
    {
        let all = self.get_snippets(file_lines);
        let wanted = String::from_str(title);
        let n = all.len();
        let mut i: usize = 0;
        assert(blocks_of(all@).skip(0) =~= blocks_of(all@));
        while i < n
            invariant
                n == all@.len(),
                i <= n,
                wanted@ == title@,
                blocks_of(all@) == collect(self@, line_views(file_lines@)),
                first_titled(blocks_of(all@), title@)
                    == first_titled(blocks_of(all@).skip(i as int), title@),
            decreases n - i,
        {
            let ghost rest = blocks_of(all@).skip(i as int);
            assert(rest.len() > 0);
            assert(rest[0] == all@[i as int]@);
            if all[i].title_is(&wanted) {
                return Some(all[i].clone());
            }
            assert(rest.drop_first() =~= blocks_of(all@).skip(i + 1));
            i += 1;
        }
        None
    }

    /// The snippet file that holds every snippet of `get_snippets`, each
    /// written as `Snippet::to_string` writes it and followed by a `'\n'`.
    pub fn to_string(&self, file_lines: &Vec<String>) -> (r: String)
        ensures
            r@ == render_all(collect(self@, line_views(file_lines@))),
    {
        let all = self.get_snippets(file_lines);
        let mut r = String::new();
        let n = all.len();
        let mut i: usize = 0;
        while i < n
            invariant
                n == all@.len(),
                i <= n,
                r@ == render_all(blocks_of(all@).take(i as int)),
            decreases n - i,
        {
            let one = all[i].to_string();
            r.append(one.as_str());
            r.append("\n");
            proof {
                reveal_strlit("\n");
                let bs = blocks_of(all@).take(i + 1);
                assert(bs.drop_last() =~= blocks_of(all@).take(i as int));
                assert(r@ =~= render_all(bs));
            }
            i += 1;
        }
        assert(blocks_of(all@).take(n as int) =~= blocks_of(all@));
        r
    }
}

} // verus!
