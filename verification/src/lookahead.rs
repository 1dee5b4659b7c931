use vstd::prelude::*;
use vstd::string::StringExecFns;

use crate::error::Error;
use crate::messages::expect_eof_message;
use crate::messages::expect_message;
use crate::messages::expect_multi_eof_message;
use crate::messages::expect_multi_message;
use crate::messages::render_expect_eof_message;
use crate::messages::render_expect_message;
use crate::messages::render_expect_multi_eof_message;
use crate::messages::render_expect_multi_message;
use crate::token::PositionedToken;
use crate::token::TokenCopy;
use crate::token::TokenText;
use crate::token::TypeEq;
use crate::token::is_ignorable;
use crate::token::kept;
use crate::token::matches_any;

verus! {

/// The lookahead tokenizer: a two-slot buffer (`current`, `next`) over the
/// positioned tokens an external scanner produced, with the classes named in
/// `ignore` skipped transparently on both slots.
pub struct Tokenizer<T> {
    /// The scanner's output, in source order; `pos` marks the first token not
    /// yet pulled into the buffer.
    source: Vec<PositionedToken<T>>,
    pos: usize,
    current: Option<T>,
    index: usize,
    len: usize,
    next: Option<T>,
    next_index: usize,
    next_len: usize,
    ignore: Vec<T>,
}

/// Returns a copy of the token in a buffer slot.
fn copy_slot<T: TokenCopy>(slot: &Option<T>) -> (r: Option<T>)
    ensures
        r == *slot,
{
    match slot {
        Some(t) => Some(t.duplicate()),
        None => None,
    }
}

impl<T: TypeEq + TokenCopy + TokenText> Tokenizer<T> {
    /// The ignore set, as the sequence of exemplars given at construction.
    pub closed spec fn ignore_set(self) -> Seq<T> {
        self.ignore@
    }

    /// The token `current()` reports, with its byte span.
    pub closed spec fn cur(self) -> Option<PositionedToken<T>> {
        match self.current {
            Some(t) => Some(PositionedToken { token: t, index: self.index, len: self.len }),
            None => None,
        }
    }

    /// The token `peek()` reports, with its byte span.
    pub closed spec fn peeked(self) -> Option<PositionedToken<T>> {
        match self.next {
            Some(t) => Some(
                PositionedToken { token: t, index: self.next_index, len: self.next_len },
            ),
            None => None,
        }
    }

    /// What the remaining `advance` calls will return, in order: the `next`
    /// slot followed by the non-ignorable part of the unpulled source.
    pub closed spec fn upcoming(self) -> Seq<PositionedToken<T>> {
        match self.peeked() {
            Some(p) => seq![p] + kept(self.ignore@, self.source@.skip(self.pos as int)),
            None => Seq::empty(),
        }
    }

    /// Well-formedness: the cursor is in range, neither buffer slot holds an
    /// ignorable token, and an empty `next` slot means the source is spent.
    pub closed spec fn wf(self) -> bool {
        &&& self.pos <= self.source.len()
        &&& match self.next {
            Some(t) => !is_ignorable(self.ignore@, t),
            None => self.pos == self.source@.len(),
        }
        &&& match self.current {
            Some(t) => !is_ignorable(self.ignore@, t),
            None => true,
        }
    }

    /// The raw stream still ahead of the buffer, `next` slot included,
    /// before any filtering.
    spec fn raw_upcoming(self) -> Seq<PositionedToken<T>> {
        match self.peeked() {
            Some(p) => seq![p] + self.source@.skip(self.pos as int),
            None => self.source@.skip(self.pos as int),
        }
    }

    /// Moves one source token into the `next` slot, or empties the slot when
    /// the source is spent.
    fn pull(&mut self)
        requires
            old(self).pos <= old(self).source.len(),
        ensures
            final(self).source == old(self).source,
            final(self).ignore == old(self).ignore,
            final(self).current == old(self).current,
            final(self).index == old(self).index,
            final(self).len == old(self).len,
            old(self).pos < old(self).source@.len() ==> {
                &&& final(self).pos == old(self).pos + 1
                &&& final(self).next == Some(old(self).source@[old(self).pos as int].token)
                &&& final(self).next_index == old(self).source@[old(self).pos as int].index
                &&& final(self).next_len == old(self).source@[old(self).pos as int].len
            },
            old(self).pos == old(self).source@.len() ==> {
                &&& final(self).pos == old(self).pos
                &&& final(self).next is None
            },
    {
        if self.pos < self.source.len() {
            let token = self.source[self.pos].token.duplicate();
            let index = self.source[self.pos].index;
            let len = self.source[self.pos].len;
            self.next = Some(token);
            self.next_index = index;
            self.next_len = len;
            self.pos = self.pos + 1;
        } else {
            self.next = None;
        }
    }

    /// Returns whether the token waiting in the `next` slot is ignorable.
    fn pending_ignorable(&self) -> (r: bool)
        ensures
            r == match self.next {
                Some(t) => is_ignorable(self.ignore@, t),
                None => false,
            },
    {
        match &self.next {
            Some(t) => self.can_ignore(t),
            None => false,
        }
    }

    /// Refills the `next` slot: pulls one token, then keeps pulling while the
    /// pulled token is ignorable, so that the slot again holds the first
    /// non-ignorable unconsumed token, or nothing when none remains.
    fn reload(&mut self)
        requires
            old(self).pos <= old(self).source.len(),
        ensures
            final(self).source == old(self).source,
            final(self).ignore == old(self).ignore,
            final(self).current == old(self).current,
            final(self).index == old(self).index,
            final(self).len == old(self).len,
            final(self).pos <= final(self).source.len(),
            match final(self).next {
                Some(t) => !is_ignorable(final(self).ignore@, t),
                None => final(self).pos == final(self).source@.len(),
            },
            final(self).upcoming() == kept(
                old(self).ignore@,
                old(self).source@.skip(old(self).pos as int),
            ),
    {
        proof {
            let s = self.source@;
            let p = self.pos as int;
            if p < s.len() {
                assert(seq![s[p]] + s.skip(p + 1) =~= s.skip(p));
            }
        }
        self.pull();
        while self.pending_ignorable()
            invariant
                self.pos <= self.source.len(),
                self.source == old(self).source,
                self.ignore == old(self).ignore,
                self.current == old(self).current,
                self.index == old(self).index,
                self.len == old(self).len,
                self.next is None ==> self.pos == self.source@.len(),
                kept(self.ignore@, self.raw_upcoming()) == kept(
                    old(self).ignore@,
                    old(self).source@.skip(old(self).pos as int),
                ),
            decreases
                    self.source.len() - self.pos + (if self.next is Some {
                        1int
                    } else {
                        0int
                    }),
        {
            proof {
                let s = self.source@;
                let p = self.pos as int;
                let ig = self.ignore@;
                let pk = self.peeked()->Some_0;
                assert(self.raw_upcoming() == seq![pk] + s.skip(p));
                assert((seq![pk] + s.skip(p))[0] == pk);
                assert((seq![pk] + s.skip(p)).skip(1) =~= s.skip(p));
                assert(kept(ig, seq![pk] + s.skip(p)) == kept(ig, s.skip(p)));
                if p < s.len() {
                    assert(seq![s[p]] + s.skip(p + 1) =~= s.skip(p));
                }
            }
            self.pull();
        }
        proof {
            let s = self.source@;
            let p = self.pos as int;
            let ig = self.ignore@;
            match self.next {
                Some(_) => {
                    let pk = self.peeked()->Some_0;
                    assert(self.raw_upcoming() == seq![pk] + s.skip(p));
                    assert((seq![pk] + s.skip(p))[0] == pk);
                    assert((seq![pk] + s.skip(p)).skip(1) =~= s.skip(p));
                    assert(kept(ig, seq![pk] + s.skip(p)) == seq![pk] + kept(ig, s.skip(p)));
                },
                None => {
                    assert(s.skip(p).len() == 0);
                    assert(kept(ig, s.skip(p)) =~= Seq::<PositionedToken<T>>::empty());
                },
            }
        }
    }

    /// Returns whether `token` belongs to one of the ignored classes.
    fn can_ignore(&self, token: &T) -> (r: bool)
        ensures
            r == is_ignorable(self.ignore@, *token),
    {
        let mut i: usize = 0;
        while i < self.ignore.len()
            invariant
                i <= self.ignore.len(),
                forall|j: int| 0 <= j < i ==> !self.ignore@[j].class_eq(*token),
            decreases self.ignore.len() - i,
        {
            if self.ignore[i].type_eq(token) {
                return true;
            }
            i += 1;
        }
        false
    }

    /// Returns whether `got` is class-equal to some element of `wanted`.
    fn any_match(got: &T, wanted: &Vec<T>) -> (r: bool)
        ensures
            r == matches_any(*got, wanted@),
    {
        let mut i: usize = 0;
        while i < wanted.len()
            invariant
                i <= wanted.len(),
                forall|j: int| 0 <= j < i ==> !got.class_eq(wanted@[j]),
            decreases wanted.len() - i,
        {
            if got.type_eq(&wanted[i]) {
                return true;
            }
            i += 1;
        }
        false
    }

    /// Builds a tokenizer around the scanner's positioned tokens, eagerly
    /// skipping any leading tokens of the classes in `ignore`, so that `peek`
    /// reflects the ignore policy from the start. `current` starts absent.
    pub fn new(source: Vec<PositionedToken<T>>, ignore: Vec<T>) -> (r: Self)
        ensures
            r.wf(),
            r.cur() is None,
            r.ignore_set() == ignore@,
            r.upcoming() == kept(ignore@, source@),
    {
        let mut r = Tokenizer {
            source,
            pos: 0,
            current: None,
            index: 0,
            len: 0,
            next: None,
            next_index: 0,
            next_len: 0,
            ignore,
        };
        r.reload();
        proof {
            assert(r.source@.skip(0) =~= r.source@);
        }
        r
    }

    /// How one `advance` call changes the buffer: the head of `upcoming`
    /// becomes `current` and is removed, or, when nothing remains, both slots
    /// are (and stay) absent.
    pub open spec fn stepped(post: Self, pre: Self) -> bool {
        if pre.upcoming().len() > 0 {
            &&& post.cur() == Some(pre.upcoming()[0])
            &&& post.upcoming() == pre.upcoming().skip(1)
        } else {
            &&& post.cur() is None
            &&& post.peeked() is None
            &&& post.upcoming() == Seq::<PositionedToken<T>>::empty()
        }
    }

    /// Consumes one token: shifts `next` into `current`, refills `next` with
    /// the following non-ignorable token, and returns the new `current`.
    /// Once it returns absent, every later call returns absent as well.
    pub fn advance(&mut self) -> (r: Option<T>)
        requires
            old(self).wf(),
        ensures
            final(self).wf(),
            final(self).ignore_set() == old(self).ignore_set(),
            Self::stepped(*final(self), *old(self)),
            old(self).upcoming().len() > 0 ==> r == Some(old(self).upcoming()[0].token),
            old(self).upcoming().len() == 0 ==> r is None,
    {
        proof {
            if self.next is Some {
                let pk = self.peeked()->Some_0;
                let rest = kept(self.ignore@, self.source@.skip(self.pos as int));
                assert((seq![pk] + rest)[0] == pk);
                assert((seq![pk] + rest).skip(1) =~= rest);
            }
        }
        self.current = copy_slot(&self.next);
        self.index = self.next_index;
        self.len = self.next_len;
        self.reload();
        copy_slot(&self.current)
    }

    /// Returns the token in the `next` slot without consuming it: the first
    /// non-ignorable token after `current`, or absent when none remains.
    pub fn peek(&self) -> (r: Option<T>)
        ensures
            r == match self.peeked() {
                Some(p) => Some(p.token),
                None => None::<T>,
            },
    {
        copy_slot(&self.next)
    }

    /// Returns the token the most recent `advance` produced, or absent when
    /// `advance` has not been called or the stream is exhausted.
    pub fn current(&self) -> (r: Option<T>)
        ensures
            r == match self.cur() {
                Some(p) => Some(p.token),
                None => None::<T>,
            },
    {
        copy_slot(&self.current)
    }

    /// Builds an error carrying the current token's byte span, or no span
    /// when there is no current token.
    pub fn error(&self, msg: &str) -> (r: Error)
        ensures
            r.msg@ == msg@,
            match self.cur() {
                Some(p) => r.index == Some(p.index) && r.len == Some(p.len),
                None => r.index is None && r.len is None,
            },
    {
        match &self.current {
            Some(_) => Error::new(Some(self.index), Some(self.len), String::from_str(msg)),
            None => Error::new(None, None, String::from_str(msg)),
        }
    }

    /// Returns whether the current token is class-equal to `token`; false
    /// when there is no current token. Does not mutate the buffer.
    pub fn is(&self, token: T) -> (r: bool)
        ensures
            r == match self.cur() {
                Some(p) => p.token.class_eq(token),
                None => false,
            },
    {
        match &self.current {
            Some(got) => got.type_eq(&token),
            None => false,
        }
    }

    /// Returns whether the current token is class-equal to some element of
    /// `tokens`; false when there is no current token.
    pub fn is_multi(&self, tokens: Vec<T>) -> (r: bool)
        ensures
            r == match self.cur() {
                Some(p) => matches_any(p.token, tokens@),
                None => false,
            },
    {
        match &self.current {
            Some(got) => Self::any_match(got, &tokens),
            None => false,
        }
    }

    /// Returns whether the token `peek` shows is class-equal to `token`;
    /// false when none is waiting.
    pub fn next_is(&self, token: T) -> (r: bool)
        ensures
            r == match self.peeked() {
                Some(p) => p.token.class_eq(token),
                None => false,
            },
    {
        match &self.next {
            Some(got) => got.type_eq(&token),
            None => false,
        }
    }

    /// Returns whether the token `peek` shows is class-equal to some element
    /// of `tokens`; false when none is waiting.
    pub fn next_is_multi(&self, tokens: Vec<T>) -> (r: bool)
        ensures
            r == match self.peeked() {
                Some(p) => matches_any(p.token, tokens@),
                None => false,
            },
    {
        match &self.next {
            Some(got) => Self::any_match(got, &tokens),
            None => false,
        }
    }

    /// Expects the current token to be class-equal to `token`: on a match,
    /// returns the current token and consumes it; on a mismatch or with no
    /// current token, returns a positioned error and leaves the buffer as it
    /// was.
    pub fn expect(&mut self, token: T) -> (r: Result<T, Error>)
        requires
            old(self).wf(),
        ensures
            final(self).wf(),
            final(self).ignore_set() == old(self).ignore_set(),
            match old(self).cur() {
                None => {
                    &&& *final(self) == *old(self)
                    &&& r matches Err(e) && e.index is None && e.len is None && e.msg@
                        == expect_eof_message(token.text_spec())
                },
                Some(c) => {
                    if token.class_eq(c.token) {
                        &&& r == Ok::<T, Error>(c.token)
                        &&& Self::stepped(*final(self), *old(self))
                    } else {
                        &&& *final(self) == *old(self)
                        &&& r matches Err(e) && e.index == Some(c.index) && e.len == Some(c.len)
                            && e.msg@ == expect_message(token.text_spec(), c.token.text_spec())
                    }
                },
            },
    {
        let cur = self.current();
        match cur {
            Some(got) => {
                if token.type_eq(&got) {
                    self.advance();
                    Ok(got)
                } else {
                    let m = render_expect_message(&token, &got);
                    Err(Error::new(Some(self.index), Some(self.len), m))
                }
            },
            None => {
                let m = render_expect_eof_message(&token);
                Err(Error::new(None, None, m))
            },
        }
    }

    /// Expects the current token to be class-equal to some element of
    /// `tokens`: on a match, returns the current token and consumes it;
    /// otherwise returns a positioned error and leaves the buffer as it was.
    pub fn expect_multi(&mut self, tokens: Vec<T>) -> (r: Result<T, Error>)
        requires
            old(self).wf(),
        ensures
            final(self).wf(),
            final(self).ignore_set() == old(self).ignore_set(),
            match old(self).cur() {
                None => {
                    &&& *final(self) == *old(self)
                    &&& r matches Err(e) && e.index is None && e.len is None && e.msg@
                        == expect_multi_eof_message(tokens@)
                },
                Some(c) => {
                    if matches_any(c.token, tokens@) {
                        &&& r == Ok::<T, Error>(c.token)
                        &&& Self::stepped(*final(self), *old(self))
                    } else {
                        &&& *final(self) == *old(self)
                        &&& r matches Err(e) && e.index == Some(c.index) && e.len == Some(c.len)
                            && e.msg@ == expect_multi_message(tokens@, c.token.text_spec())
                    }
                },
            },
    {
        let cur = self.current();
        match cur {
            Some(got) => {
                if Self::any_match(&got, &tokens) {
                    self.advance();
                    Ok(got)
                } else {
                    let m = render_expect_multi_message(&tokens, &got);
                    Err(Error::new(Some(self.index), Some(self.len), m))
                }
            },
            None => {
                let m = render_expect_multi_eof_message(&tokens);
                Err(Error::new(None, None, m))
            },
        }
    }

    /// Iterates the stream to its end: a thin loop over `advance` until it
    /// returns absent. The values returned along the way are exactly the
    /// non-ignorable subsequence of the source, in source order.
    pub fn drain_all(&mut self) -> (r: Vec<T>)
        requires
            old(self).wf(),
        ensures
            final(self).wf(),
            r@ == old(self).upcoming().map_values(|p: PositionedToken<T>| p.token),
            final(self).cur() is None,
            final(self).peeked() is None,
            final(self).upcoming() == Seq::<PositionedToken<T>>::empty(),
    {
        let ghost full = old(self).upcoming().map_values(|p: PositionedToken<T>| p.token);
        let mut out: Vec<T> = Vec::new();
        let mut t = self.advance();
        proof {
            lemma_step_map(*old(self), *self);
        }
        while t.is_some()
            invariant
                self.wf(),
                match t {
                    Some(x) => full == out@ + seq![x] + self.upcoming().map_values(
                        |p: PositionedToken<T>| p.token,
                    ),
                    None => {
                        &&& full == out@
                        &&& self.cur() is None
                        &&& self.peeked() is None
                        &&& self.upcoming() == Seq::<PositionedToken<T>>::empty()
                    },
                },
            decreases
                    self.upcoming().len() + (if t is Some {
                        1int
                    } else {
                        0int
                    }),
        {
            let x = t.unwrap();
            out.push(x);
            let ghost pre = *self;
            t = self.advance();
            proof {
                lemma_step_map(pre, *self);
            }
        }
        out
    }

    /// Ignore-transparency: whatever the ignore set and the source, neither
    /// `current()` nor `peek()` ever shows a token of an ignored class. The
    /// constructor establishes well-formedness and every operation preserves
    /// it, so this holds at every point of a traversal.
    pub proof fn lemma_ignore_transparency(self)
        requires
            self.wf(),
        ensures
            self.cur() matches Some(p) ==> !is_ignorable(self.ignore_set(), p.token),
            self.peeked() matches Some(p) ==> !is_ignorable(self.ignore_set(), p.token),
            forall|i: int|
                0 <= i < self.upcoming().len() ==> !is_ignorable(
                    self.ignore_set(),
                    #[trigger] self.upcoming()[i].token,
                ),
    {
        crate::token::lemma_kept_not_ignorable(self.ignore@, self.source@.skip(self.pos as int));
        if self.peeked() is Some {
            let pk = self.peeked()->Some_0;
            let rest = kept(self.ignore@, self.source@.skip(self.pos as int));
            assert forall|i: int| 0 <= i < self.upcoming().len() implies !is_ignorable(
                self.ignore_set(),
                #[trigger] self.upcoming()[i].token,
            ) by {
                if i == 0 {
                    assert(self.upcoming()[0] == pk);
                } else {
                    assert(self.upcoming()[i] == rest[i - 1]);
                }
            }
        }
    }

    /// Idempotent termination: `advance` returns absent exactly when
    /// `upcoming` is empty, and by `stepped` it then leaves `upcoming` empty
    /// and both slots absent — so once a call returns absent, every later
    /// call returns absent as well, and `current()` and `peek()` stay absent.
    pub proof fn lemma_idempotent_termination(post: Self, pre: Self)
        requires
            Self::stepped(post, pre),
            pre.upcoming().len() == 0,
        ensures
            post.upcoming().len() == 0,
            post.cur() is None,
            post.peeked() is None,
    {
    }

    /// Lookahead correctness: `peek` shows exactly the head of what the
    /// remaining `advance` calls will return — immediately after an `advance`
    /// that returned a token, the next non-ignorable token of the source, or
    /// absent when none remains.
    pub proof fn lemma_lookahead_correctness(self)
        requires
            self.wf(),
        ensures
            self.upcoming().len() > 0 ==> self.peeked() == Some(self.upcoming()[0]),
            self.upcoming().len() == 0 ==> self.peeked() is None,
    {
        if self.peeked() is Some {
            let pk = self.peeked()->Some_0;
            let rest = kept(self.ignore@, self.source@.skip(self.pos as int));
            assert((seq![pk] + rest)[0] == pk);
        }
    }
}

/// Relates the token sequences of `upcoming` across one `advance` step.
proof fn lemma_step_map<T: TypeEq + TokenCopy + TokenText>(pre: Tokenizer<T>, post: Tokenizer<T>)
    requires
        Tokenizer::<T>::stepped(post, pre),
    ensures
        pre.upcoming().len() > 0 ==> pre.upcoming().map_values(|p: PositionedToken<T>| p.token)
            == seq![pre.upcoming()[0].token] + post.upcoming().map_values(
            |p: PositionedToken<T>| p.token,
        ),
        pre.upcoming().len() == 0 ==> post.upcoming().map_values(|p: PositionedToken<T>| p.token)
            == Seq::<T>::empty(),
{
    if pre.upcoming().len() > 0 {
        assert(pre.upcoming().map_values(|p: PositionedToken<T>| p.token)
            =~= seq![pre.upcoming()[0].token] + pre.upcoming().skip(1).map_values(
            |p: PositionedToken<T>| p.token,
        ));
    } else {
        assert(post.upcoming().map_values(|p: PositionedToken<T>| p.token) =~= Seq::<T>::empty());
    }
}

} // verus!
