//! The byte cursor and its primitive matchers.
use crate::anchors::AnchorTable;
use crate::node::NodeBase;
use crate::tags::{default_table, default_tags, tag_entries};
use crate::text::{text_of, to_text};
use ritelinked::LinkedHashMap;
use vstd::prelude::*;
use vstd::slice::slice_subrange;
use vstd::utf8::{decode_utf8, valid_utf8};

verus! {

/// How often [`Parser::take_while`] is to match.
#[derive(Clone, Copy, Debug)]
pub enum TakeOpt {
    /// Exactly once.
    One,
    /// At least the first number of times, and no more than the second.
    Range(usize, usize),
    /// At least this number of times, and as often as possible.
    More(usize),
}

/// Why a production did not give a value.
#[derive(Clone, Copy, Debug)]
pub enum PError {
    /// The input is not of this form: the caller may try another.
    Mismatch,
    /// The input is invalid at this byte offset: the parse is over.
    Terminate(u64, &'static str),
}

/// The cursor over one input, with the state of the document being read.
pub struct Parser<'a> {
    /// The input window.
    pub doc: &'a [u8],
    /// The width of each committed block indentation, outermost first.
    pub indent: Vec<usize>,
    /// The width that a block indentation has before the input commits one.
    pub width: usize,
    /// The number of bytes that lie before the window.
    pub consumed: u64,
    /// How deep collections may nest.
    pub depth: usize,
    /// Whether a version directive was seen in this document.
    pub version_checked: bool,
    /// The prefix of each tag handle.
    pub tag: LinkedHashMap<String, String>,
    /// The anchors of this document.
    pub anchors: AnchorTable,
    /// The current position.
    pub pos: usize,
    /// The last commit point.
    pub eaten: usize,
}

/// The count at which `opt` stops a run: 1 for one match, the upper bound
/// of a range, and none for an open end.
pub open spec fn limit_hit(opt: TakeOpt, n: int) -> bool {
    match opt {
        TakeOpt::One => n == 1,
        TakeOpt::Range(_, hi) => n == hi,
        TakeOpt::More(_) => false,
    }
}

/// The least count that `opt` accepts.
pub open spec fn least(opt: TakeOpt) -> int {
    match opt {
        TakeOpt::One => 1,
        TakeOpt::Range(lo, _) => lo as int,
        TakeOpt::More(lo) => lo as int,
    }
}

/// A run of `n` bytes from `at` is what `f` takes under `opt`: `f` accepts
/// each of them, the limit of `opt` is not reached before the run ends, and
/// the run ends at the end of the input, at the limit, or before a byte that
/// `f` turns down. A limit of 0 lets no run start.
pub open spec fn run<F: Fn(&u8) -> bool>(doc: Seq<u8>, at: int, f: F, opt: TakeOpt, n: int) -> bool {
    &&& 0 <= n <= doc.len() - at
    &&& forall|i: int| at <= i < at + n ==> f.ensures((&#[trigger] doc[i],), true)
    &&& forall|k: int| 0 <= k < n ==> !#[trigger] limit_hit(opt, k)
    &&& (at + n == doc.len() || limit_hit(opt, n) || f.ensures((&doc[at + n],), false))
}

/// The bytes `s` stand in `doc` at `at`.
pub open spec fn stands_at(doc: Seq<u8>, at: int, s: Seq<u8>) -> bool {
    &&& 0 <= at
    &&& at + s.len() <= doc.len()
    &&& doc.subrange(at, at + s.len()) == s
}

/// `n` spaces stand in `doc` at `at`.
pub open spec fn spaces_at(doc: Seq<u8>, at: int, n: int) -> bool {
    &&& 0 <= at
    &&& at + n <= doc.len()
    &&& forall|i: int| at <= i < at + n ==> doc[i] == 0x20u8
}

/// The sum of the widths.
pub open spec fn total(widths: Seq<usize>) -> int
    decreases widths.len(),
{
    if widths.len() == 0 {
        0
    } else {
        total(widths.drop_last()) + widths.last()
    }
}

/// The indentation stack once level `level` is asked for: cut behind that
/// level, or filled up to it with `width`.
pub open spec fn stack_for(indent: Seq<usize>, level: int, width: usize) -> Seq<usize> {
    if level < indent.len() {
        indent.subrange(0, level + 1)
    } else {
        indent + Seq::new((level + 1 - indent.len()) as nat, |i: int| width)
    }
}

/// The widths up to a level sum to no more than all of them.
pub proof fn total_prefix(widths: Seq<usize>, k: int)
    requires
        0 <= k <= widths.len(),
    ensures
        0 <= total(widths.subrange(0, k)) <= total(widths),
    decreases widths.len(),
{
    if k == widths.len() {
        assert(widths.subrange(0, k) =~= widths);
        if widths.len() > 0 {
            total_prefix(widths.drop_last(), k - 1);
            assert(widths.drop_last().subrange(0, k - 1) =~= widths.drop_last());
        }
    } else {
        total_prefix(widths.drop_last(), k);
        assert(widths.drop_last().subrange(0, k) =~= widths.subrange(0, k));
    }
}

/// Whether `s` holds `c`.
pub fn holds(s: &[u8], c: u8) -> (r: bool)
    ensures
        r == s@.contains(c),
{
    let mut i: usize = 0;
    while i < s.len()
        invariant
            i <= s@.len(),
            forall|k: int| 0 <= k < i ==> s@[k] != c,
        decreases s@.len() - i,
    {
        if s[i] == c {
            return true;
        }
        i += 1;
    }
    false
}

impl<'a> Parser<'a> {
    /// The cursor and the commit point lie within the window, offsets fit,
    /// and there is an outermost indentation.
    pub open spec fn wf(&self) -> bool {
        &&& self.pos <= self.doc@.len() <= usize::MAX
        &&& self.eaten <= self.doc@.len()
        &&& self.consumed + self.doc@.len() <= u64::MAX
        &&& self.indent@.len() >= 1
    }

    /// The same state with the cursor at `pos`.
    pub open spec fn moved(self, pos: usize) -> Parser<'a> {
        Parser { pos, ..self }
    }

    /// The same state with the commit point at the cursor.
    pub open spec fn committed(self) -> Parser<'a> {
        Parser { eaten: self.pos, ..self }
    }

    /// The same state with the commit point at `eaten`.
    pub open spec fn with_eaten(self, eaten: usize) -> Parser<'a> {
        Parser { eaten, ..self }
    }

    /// The absolute offset of the cursor.
    pub open spec fn offset(&self) -> int {
        self.consumed + self.pos
    }

    /// What every production keeps: the window, what lies before it, the
    /// settings and the commit point, with the cursor inside the window.
    pub open spec fn kept(&self, before: &Self) -> bool {
        &&& self.wf()
        &&& self.doc == before.doc
        &&& self.consumed == before.consumed
        &&& self.width == before.width
        &&& self.depth == before.depth
        &&& self.eaten == before.eaten
    }

    /// How a production leaves the cursor: inside the input in any case,
    /// nowhere before its start where it gave a value, and at its start,
    /// the checkpoint it took on entry, where it reports a mismatch.
    pub open spec fn produced<T>(&self, before: &Self, r: Result<T, PError>) -> bool {
        &&& self.kept(before)
        &&& r is Ok ==> self.pos >= before.pos
        &&& r matches Err(PError::Mismatch) ==> self.pos == before.pos
    }

    /// What a matcher leaves behind: the cursor behind the match where it
    /// matched, and at the commit point where it did not.
    pub open spec fn settled(self, matched: bool, len: int) -> Parser<'a> {
        if matched {
            self.moved((self.pos + len) as usize)
        } else {
            self.moved(self.eaten)
        }
    }

    /// A parser at the start of `doc`, with the default tag handles, an
    /// indentation width of 2 and room for 128 nested collections.
    pub fn new(doc: &'a [u8]) -> (r: Self)
        ensures
            r.wf(),
            r.doc == doc,
            r.pos == 0,
            r.eaten == 0,
            r.consumed == 0,
            r.indent@ == seq![0usize],
            r.width == 2,
            r.depth == 128,
            !r.version_checked,
            tag_entries(r.tag) == default_tags(),
            r.anchors@ == Map::<Seq<char>, NodeBase>::empty(),
    {
        let mut indent: Vec<usize> = Vec::new();
        indent.push(0);
        let len = doc.len();
        assert(doc@.len() == len && len <= usize::MAX <= u64::MAX);
        Parser {
            doc,
            indent,
            width: 2,
            consumed: 0,
            depth: 128,
            version_checked: false,
            tag: default_table(),
            anchors: AnchorTable::new(),
            pos: 0,
            eaten: 0,
        }
    }

    /// The same parser over another window.
    pub fn with_doc(self, doc: &'a [u8]) -> (r: Self)
        ensures
            r == (Parser { doc, ..self }),
    {
        let mut r = self;
        r.doc = doc;
        r
    }

    /// The same parser with another default width of a block indentation.
    pub fn indent(self, indent: usize) -> (r: Self)
        ensures
            r == (Parser { width: indent, ..self }),
    {
        let mut r = self;
        r.width = indent;
        r
    }

    /// The same parser with another limit on how deep collections may nest.
    pub fn max_depth(self, depth: usize) -> (r: Self)
        ensures
            r == (Parser { depth, ..self }),
    {
        let mut r = self;
        r.depth = depth;
        r
    }

    /// The same parser with cursor and commit point at `pos`.
    pub fn pos(self, pos: usize) -> (r: Self)
        ensures
            r == (Parser { pos, eaten: pos, ..self }),
    {
        let mut r = self;
        r.pos = pos;
        r.eaten = pos;
        r
    }

    /// The input from the cursor on.
    pub fn food(&self) -> (r: &'a [u8])
        requires
            self.wf(),
        ensures
            r@ == self.doc@.subrange(self.pos as int, self.doc@.len() as int),
    {
        slice_subrange(self.doc, self.pos, self.doc.len())
    }

    /// The input between the commit point and the cursor, as text; empty
    /// where the cursor is not behind the commit point.
    pub fn text(&mut self) -> (r: String)
        requires
            old(self).wf(),
        ensures
            *final(self) == *old(self),
            old(self).eaten < old(self).pos && valid_utf8(
                old(self).doc@.subrange(old(self).eaten as int, old(self).pos as int),
            ) ==> r@ == decode_utf8(
                old(self).doc@.subrange(old(self).eaten as int, old(self).pos as int),
            ),
            r@ == (if old(self).eaten < old(self).pos {
                text_of(old(self).doc@.subrange(old(self).eaten as int, old(self).pos as int))
            } else {
                Seq::<char>::empty()
            }),
    {
        if self.eaten < self.pos {
            to_text(slice_subrange(self.doc, self.eaten, self.pos))
        } else {
            String::new()
        }
    }

    /// The absolute offset of the cursor.
    pub fn indicator(&self) -> (r: u64)
        requires
            self.wf(),
        ensures
            r == self.offset(),
    {
        self.consumed + self.pos as u64
    }

    /// The fatal error with this message, at the cursor.
    pub fn err<Ret>(&self, msg: &'static str) -> (r: Result<Ret, PError>)
        requires
            self.wf(),
        ensures
            r == Err::<Ret, PError>(PError::Terminate(self.offset() as u64, msg)),
    {
        Err(PError::Terminate(self.indicator(), msg))
    }

    /// Folds the cursor into the count of bytes that lie before the window,
    /// and puts the cursor and the commit point at the start of the window.
    ///
    /// The window stays as it is: to go on behind what was read, the caller
    /// attaches the rest of the input as the new window.
    pub fn consume(&mut self)
        requires
            old(self).wf(),
        ensures
            *final(self) == (Parser {
                consumed: (old(self).consumed + old(self).pos) as u64,
                pos: 0,
                eaten: 0,
                ..*old(self)
            }),
    {
        self.forward();
        self.consumed += self.eaten as u64;
        self.eaten = 0;
        self.backward();
    }

    /// Commits: the commit point moves to the cursor.
    pub fn forward(&mut self)
        ensures
            *final(self) == old(self).committed(),
    {
        self.eaten = self.pos;
    }

    /// Restores: the cursor moves back to the commit point.
    pub fn backward(&mut self)
        ensures
            *final(self) == old(self).moved(old(self).eaten),
    {
        self.pos = self.eaten;
    }

    /// Moves the cursor back by `n` bytes.
    pub fn back(&mut self, n: usize)
        requires
            n <= old(self).pos,
        ensures
            *final(self) == old(self).moved((old(self).pos - n) as usize),
    {
        self.pos -= n;
    }

    /// Matches the byte `s`.
    pub fn sym(&mut self, s: u8) -> (r: Result<(), PError>)
        requires
            old(self).wf(),
        ensures
            final(self).wf(),
            r is Ok <==> (old(self).pos < old(self).doc@.len() && old(self).doc@[old(self).pos as int]
                == s),
            r is Err ==> r == Err::<(), PError>(PError::Mismatch),
            *final(self) == old(self).settled(r is Ok, 1),
    {
        let ghost doc = self.doc@;
        let ghost at = self.pos as int;
        let f = |c: &u8| -> (b: bool)
            ensures
                b == (*c == s),
            { *c == s };
        let r = self.take_while(f, TakeOpt::One);
        proof {
            let n = choose|n: int| #[trigger]
                run(doc, at, f, TakeOpt::One, n) && (r is Ok <==> n >= least(TakeOpt::One))
                    && *self == old(self).settled(r is Ok, n);
            if n >= 2 {
                assert(limit_hit(TakeOpt::One, 1));
            }
        }
        r
    }

    /// Matches one byte out of `s`.
    pub fn sym_set(&mut self, s: &[u8]) -> (r: Result<(), PError>)
        requires
            old(self).wf(),
        ensures
            final(self).wf(),
            r is Ok <==> (old(self).pos < old(self).doc@.len() && s@.contains(
                old(self).doc@[old(self).pos as int],
            )),
            r is Err ==> r == Err::<(), PError>(PError::Mismatch),
            *final(self) == old(self).settled(r is Ok, 1),
    {
        let ghost doc = self.doc@;
        let ghost at = self.pos as int;
        let f = Self::is_in(s);
        let r = self.take_while(f, TakeOpt::One);
        proof {
            let n = choose|n: int| #[trigger]
                run(doc, at, f, TakeOpt::One, n) && (r is Ok <==> n >= least(TakeOpt::One))
                    && *self == old(self).settled(r is Ok, n);
            if n >= 2 {
                assert(limit_hit(TakeOpt::One, 1));
            }
        }
        r
    }

    /// Matches the bytes of `s`, one after the other.
    pub fn sym_seq(&mut self, s: &[u8]) -> (r: Result<(), PError>)
        requires
            old(self).wf(),
        ensures
            final(self).wf(),
            r is Ok <==> stands_at(old(self).doc@, old(self).pos as int, s@),
            r is Err ==> r == Err::<(), PError>(PError::Mismatch),
            *final(self) == old(self).settled(r is Ok, s@.len() as int),
    {
        let ghost doc = self.doc@;
        let ghost at = self.pos as int;
        let mut i: usize = 0;
        while i < s.len()
            invariant
                i <= s@.len(),
                self.wf(),
                doc == self.doc@,
                doc.len() <= usize::MAX,
                at == old(self).pos,
                at + i <= doc.len(),
                *self == old(self).moved((at + i) as usize),
                forall|k: int| 0 <= k < i ==> doc[at + k] == s@[k],
            decreases s@.len() - i,
        {
            match self.sym(s[i]) {
                Ok(()) => {},
                Err(e) => {
                    proof {
                        if stands_at(doc, at, s@) {
                            assert(doc.subrange(at, at + s@.len())[i as int] == s@[i as int]);
                        }
                    }
                    return Err(e);
                },
            }
            i += 1;
        }
        assert(doc.subrange(at, at + s@.len()) =~= s@);
        Ok(())
    }

    /// Matches the bytes of `s`, one after the other.
    pub fn seq(&mut self, s: &[u8]) -> (r: Result<(), PError>)
        requires
            old(self).wf(),
        ensures
            final(self).wf(),
            r is Ok <==> stands_at(old(self).doc@, old(self).pos as int, s@),
            r is Err ==> r == Err::<(), PError>(PError::Mismatch),
            *final(self) == old(self).settled(r is Ok, s@.len() as int),
    {
        self.sym_seq(s)
    }

    /// Matches as many bytes as `f` accepts and `opt` allows.
    ///
    /// Where that is fewer than `opt` asks for, the cursor goes back to the
    /// commit point and the result is a mismatch.
    pub fn take_while<F>(&mut self, f: F, opt: TakeOpt) -> (r: Result<(), PError>) where
        F: Fn(&u8) -> bool,

        requires
            old(self).wf(),
            forall|c: &u8| f.requires((c,)),
        ensures
            final(self).wf(),
            r is Err ==> r == Err::<(), PError>(PError::Mismatch),
            exists|n: int| #[trigger]
                run(old(self).doc@, old(self).pos as int, f, opt, n) && (r is Ok <==> n >= least(
                    opt,
                )) && *final(self) == old(self).settled(r is Ok, n),
            r is Ok ==> old(self).pos + least(opt) <= final(self).pos,
            r is Ok ==> (opt matches TakeOpt::Range(_, hi) ==> final(self).pos <= old(self).pos + hi),
            r is Ok ==> (opt is One ==> final(self).pos == old(self).pos + 1),
    {
        let ghost doc = self.doc@;
        let ghost at = self.pos as int;
        let pos = self.pos;
        let mut counter: usize = 0;
        let mut stop = false;
        while !stop && self.pos < self.doc.len()
            invariant
                doc == self.doc@,
                at == pos,
                self.pos == pos + counter,
                self.pos <= doc.len() <= usize::MAX,
                *self == old(self).moved(self.pos),
                forall|c: &u8| f.requires((c,)),
                forall|i: int| at <= i < at + counter ==> f.ensures((&#[trigger] doc[i],), true),
                forall|k: int| 0 <= k < counter ==> !#[trigger] limit_hit(opt, k),
                stop ==> limit_hit(opt, counter as int) || f.ensures((&doc[at + counter],), false),
            decreases doc.len() - self.pos + (if stop { 0int } else { 1int }),
        {
            let full = match opt {
                TakeOpt::One => counter == 1,
                TakeOpt::Range(_, hi) => counter == hi,
                TakeOpt::More(_) => false,
            };
            if full || !f(&self.doc[self.pos]) {
                stop = true;
            } else {
                self.pos += 1;
                counter += 1;
            }
        }
        assert(run(doc, at, f, opt, counter as int));
        proof {
            match opt {
                TakeOpt::One => {
                    if counter > 1 {
                        assert(limit_hit(opt, 1));
                    }
                },
                TakeOpt::Range(_, hi) => {
                    if counter > hi {
                        assert(limit_hit(opt, hi as int));
                    }
                },
                TakeOpt::More(_) => {},
            }
        }
        if pos == self.pos {
            match opt {
                TakeOpt::More(c) => {
                    if c == 0 {
                        return Ok(());
                    }
                },
                TakeOpt::Range(c, _) => {
                    if c == 0 {
                        return Ok(());
                    }
                },
                TakeOpt::One => {},
            }
            self.backward();
            Err(PError::Mismatch)
        } else {
            match opt {
                TakeOpt::More(c) => {
                    if counter < c {
                        self.backward();
                        return Err(PError::Mismatch);
                    }
                },
                TakeOpt::Range(c, _) => {
                    if counter < c {
                        self.backward();
                        return Err(PError::Mismatch);
                    }
                },
                TakeOpt::One => {},
            }
            Ok(())
        }
    }

    /// How far `f` moves the cursor, or the error that `f` gives.
    pub fn count<F, Ret>(&mut self, f: F) -> (r: Result<usize, PError>) where
        F: Fn(&mut Self) -> Result<Ret, PError>,

        requires
            forall|p: &mut Self| *p == *old(self) ==> f.requires((p,)),
            forall|p: &mut Self, out: Result<Ret, PError>|
                *p == *old(self) && #[trigger] f.ensures((p,), out) && out is Ok ==> final(p).pos
                    >= p.pos,
        ensures
            exists|p: &mut Self, out: Result<Ret, PError>| #[trigger]
                f.ensures((p,), out) && *p == *old(self) && *final(p) == *final(self) && r == (
                match out {
                    Ok(_) => Ok::<usize, PError>((final(self).pos - old(self).pos) as usize),
                    Err(e) => Err(e),
                }),
    {
        let pos = self.pos;
        let out = f(self);
        assert(exists|p: &mut Self| #[trigger]
            f.ensures((p,), out) && *p == *old(self) && *final(p) == *self);
        match out {
            Ok(_) => Ok(self.pos - pos),
            Err(e) => Err(e),
        }
    }

    /// Runs `f` with the commit point at the cursor, and puts the commit
    /// point back where it was.
    ///
    /// Where `f` succeeds, the cursor stays where `f` left it; where `f`
    /// fails, the cursor goes back to where it was before `f`.
    pub fn context<F, T>(&mut self, f: F) -> (r: Result<T, PError>) where
        F: Fn(&mut Self) -> Result<T, PError>,

        requires
            forall|p: &mut Self| *p == old(self).committed() ==> f.requires((p,)),
        ensures
            exists|p: &mut Self| #[trigger]
                f.ensures((p,), r) && *p == old(self).committed() && *final(self) == (Parser {
                    eaten: old(self).eaten,
                    pos: if r is Ok {
                        final(p).pos
                    } else {
                        old(self).pos
                    },
                    ..*final(p)
                }),
            r is Err ==> final(self).pos == old(self).pos,
            final(self).eaten == old(self).eaten,
    {
        let eaten = self.eaten;
        let pos = self.pos;
        self.forward();
        let r = f(self);
        let ghost mid = *self;
        assert(exists|p: &mut Self| #[trigger]
            f.ensures((p,), r) && *p == old(self).committed() && *final(p) == mid);
        self.eaten = eaten;
        if r.is_err() {
            self.pos = pos;
        }
        r
    }

    /// Matches the indentation of block level `level`: as many spaces as the
    /// widths of the levels up to it sum to.
    ///
    /// Before that the indentation stack is cut behind `level`, or filled up
    /// to it with the default width.
    pub fn ind(&mut self, level: usize) -> (r: Result<(), PError>)
        requires
            old(self).wf(),
        ensures
            final(self).wf(),
            r is Err ==> r == Err::<(), PError>(PError::Mismatch),
            final(self).indent@ == stack_for(old(self).indent@, level as int, old(self).width),
            r is Ok <==> spaces_at(old(self).doc@, old(self).pos as int, total(final(self).indent@)),
            *final(self) == (Parser {
                indent: final(self).indent,
                ..old(self).settled(r is Ok, total(final(self).indent@))
            }),
    {
        let ghost doc = self.doc@;
        let ghost start = self.pos as int;
        if level >= self.indent.len() {
            while self.indent.len() <= level
                invariant
                    old(self).indent@.len() <= self.indent@.len() <= level + 1,
                    self.indent@ == old(self).indent@ + Seq::new(
                        (self.indent@.len() - old(self).indent@.len()) as nat,
                        |i: int| old(self).width,
                    ),
                    *self == (Parser { indent: self.indent, ..*old(self) }),
                decreases level + 1 - self.indent@.len(),
            {
                let ghost before = self.indent@;
                self.indent.push(self.width);
                assert(self.indent@ =~= old(self).indent@ + Seq::new(
                    (self.indent@.len() - old(self).indent@.len()) as nat,
                    |i: int| old(self).width,
                ));
            }
        } else {
            self.indent.truncate(level + 1);
        }
        let ghost stack = self.indent@;
        let mut i: usize = 0;
        assert(stack.subrange(0, 0) =~= Seq::<usize>::empty());
        while i < self.indent.len()
            invariant
                i <= stack.len(),
                stack == self.indent@,
                stack == stack_for(old(self).indent@, level as int, old(self).width),
                doc == self.doc@,
                start == old(self).pos,
                self.wf(),
                self.pos == start + total(stack.subrange(0, i as int)),
                spaces_at(doc, start, total(stack.subrange(0, i as int))),
                *self == (Parser { indent: self.indent, ..old(self).moved(self.pos) }),
            decreases stack.len() - i,
        {
            let w = self.indent[i];
            let ghost base = total(stack.subrange(0, i as int));
            let mut j: usize = 0;
            proof {
                assert(stack.subrange(0, i + 1).drop_last() =~= stack.subrange(0, i as int));
                total_prefix(stack, i + 1);
                total_prefix(stack, i as int);
            }
            while j < w
                invariant
                    j <= w,
                    i < stack.len(),
                    w == stack[i as int],
                    stack == self.indent@,
                    stack == stack_for(old(self).indent@, level as int, old(self).width),
                    doc == self.doc@,
                    start == old(self).pos,
                    self.wf(),
                    base == total(stack.subrange(0, i as int)),
                    0 <= base,
                    base + w <= total(stack),
                    self.pos == start + base + j,
                    spaces_at(doc, start, base + j),
                    *self == (Parser { indent: self.indent, ..old(self).moved(self.pos) }),
                decreases w - j,
            {
                match self.sym(0x20u8) {
                    Ok(()) => {},
                    Err(e) => {
                        proof {
                            let at = start + base + j;
                            if spaces_at(doc, start, total(stack)) {
                                assert(doc[at] == 0x20u8);
                            }
                        }
                        return Err(e);
                    },
                }
                j += 1;
            }
            i += 1;
        }
        assert(stack.subrange(0, i as int) =~= stack);
        Ok(())
    }

    /// A test for the bytes of `s`.
    pub fn is_in<'b>(s: &'b [u8]) -> (f: impl Fn(&u8) -> bool + 'b)
        ensures
            forall|c: &u8| f.requires((c,)),
            forall|c: &u8, b: bool| f.ensures((c,), b) ==> b == s@.contains(*c),
    {
        move |c: &u8| -> (b: bool)
            ensures
                b == s@.contains(*c),
            { holds(s, *c) }
    }

    /// A test for the bytes that are not in `s`.
    pub fn not_in<'b>(s: &'b [u8]) -> (f: impl Fn(&u8) -> bool + 'b)
        ensures
            forall|c: &u8| f.requires((c,)),
            forall|c: &u8, b: bool| f.ensures((c,), b) ==> b == !s@.contains(*c),
    {
        move |c: &u8| -> (b: bool)
            ensures
                b == !s@.contains(*c),
            { !holds(s, *c) }
    }
}

impl<'a> Default for Parser<'a> {
    /// A parser over the empty input.
    fn default() -> (r: Self)
        ensures
            r.wf(),
            r.doc@ == Seq::<u8>::empty(),
            r.pos == 0,
            r.eaten == 0,
            r.consumed == 0,
            r.indent@ == seq![0usize],
            r.width == 2,
            r.depth == 128,
            !r.version_checked,
            tag_entries(r.tag) == default_tags(),
            r.anchors@ == Map::<Seq<char>, NodeBase>::empty(),
    {
        let empty: &'a [u8] = &[];
        Parser::new(empty)
    }
}

} // verus!
