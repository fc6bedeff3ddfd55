//! The typing session: a cursor over the target passage that advances by one
//! exactly when the next expected character is typed, together with the flag
//! that starts the timer on the first correct keystroke.

use vstd::prelude::*;

verus! {

/// One keyboard event, as the session understands it.
#[derive(Debug, Clone, Copy, PartialEq, Eq, Structural)]
pub enum Key {
    /// A printable character was typed.
    Char(char),
    /// The dedicated cancellation key was pressed.
    Cancel,
    /// Any other input event; it never changes the session.
    Other,
}

/// What one keystroke did to the session.
#[derive(Debug, Clone, Copy, PartialEq, Eq, Structural)]
pub enum StepResult {
    /// The next expected character was typed: progress advanced by one.
    Advanced,
    /// The keystroke matched nothing and was silently ignored.
    Ignored,
    /// The cancellation key ends the session regardless of progress.
    Cancelled,
}

/// A typing session over a fixed target passage.
pub struct Session {
    /// The characters of the target passage; fixed for the whole session.
    pub target: Vec<char>,
    /// How many leading characters of the target have been correctly typed.
    pub progress: usize,
    /// Whether any correct keystroke has occurred; gates the timer and the
    /// final statistics line.
    pub started: bool,
    /// The characters accepted so far, in the order they were typed.
    pub accepted: Ghost<Seq<char>>,
}

impl Session {
    /// The session invariant: the cursor stays within the target, the
    /// accepted characters are exactly the typed prefix of the target, and
    /// the timer only ever starts on a correct keystroke.
    pub open spec fn inv(self) -> bool {
        &&& self.progress <= self.target@.len()
        &&& self.accepted@ == self.target@.take(self.progress as int)
        &&& self.started ==> self.progress >= 1
    }

    /// Whether the whole target passage has been typed.
    pub open spec fn complete(self) -> bool {
        self.progress == self.target@.len()
    }

    /// A fresh session over `target`: nothing typed, timer not started.
    pub fn new(target: Vec<char>) -> (s: Session)
        ensures
            s.inv(),
            s.target@ == target@,
            s.progress == 0,
            !s.started,
            s.accepted@ == Seq::<char>::empty(),
    {
        let s = Session { target, progress: 0, started: false, accepted: Ghost(Seq::empty()) };
        proof {
            assert(s.target@.take(0) =~= Seq::<char>::empty());
        }
        s
    }

    /// How many characters have been correctly typed so far.
    pub fn progress(&self) -> (r: usize)
        ensures
            r == self.progress,
    {
        self.progress
    }

    /// Whether any correct keystroke has occurred.
    pub fn started(&self) -> (r: bool)
        ensures
            r == self.started,
    {
        self.started
    }

    /// Whether the whole target passage has been typed.
    pub fn is_complete(&self) -> (r: bool)
        ensures
            r == self.complete(),
    {
        self.progress == self.target.len()
    }

    /// Feed one keyboard event to the session. Progress never decreases; it
    /// advances by exactly one, and only when the typed character equals the
    /// next expected character of the target. A mismatch changes nothing.
    /// The started flag is set by the first advance and never cleared.
    pub fn step(&mut self, key: Key) -> (r: StepResult)
        requires
            old(self).inv(),
        ensures
            final(self).inv(),
            final(self).target@ == old(self).target@,
            final(self).progress >= old(self).progress,
            final(self).started == (old(self).started || r is Advanced),
            (r is Advanced) <==> (match key {
                Key::Char(c) => old(self).progress < old(self).target@.len() && c == old(self).target@[old(self).progress as int],
                _ => false,
            }),
            (r is Cancelled) <==> key is Cancel,
            r is Advanced ==> final(self).progress == old(self).progress + 1
                && final(self).accepted@ == old(self).accepted@.push(old(self).target@[old(self).progress as int]),
            !(r is Advanced) ==> final(self).progress == old(self).progress
                && final(self).accepted@ == old(self).accepted@,
    {
        match key {
            Key::Char(c) => {
                if self.progress < self.target.len() && c == self.target[self.progress] {
                    proof {
                        assert(self.target@.take(self.progress as int).push(
                            self.target@[self.progress as int],
                        ) =~= self.target@.take(self.progress as int + 1));
                    }
                    self.accepted = Ghost(self.accepted@.push(c));
                    self.progress = self.progress + 1;
                    self.started = true;
                    StepResult::Advanced
                } else {
                    StepResult::Ignored
                }
            },
            Key::Cancel => StepResult::Cancelled,
            Key::Other => StepResult::Ignored,
        }
    }

    /// Count the whitespace-delimited words among the correctly typed prefix
    /// of the target.
    pub fn typed_words(&self) -> (r: usize)
        requires
            self.inv(),
        ensures
            r == crate::text::count_words_spec(self.target@.take(self.progress as int)),
    {
        let n = self.progress;
        let mut count: usize = 0;
        let mut prev_ws: bool = true;
        let mut i: usize = 0;
        let ghost prefix = self.target@.take(self.progress as int);
        proof {
            assert(prefix.skip(0) =~= prefix);
        }
        while i < n
            invariant
                self.inv(),
                n == self.progress,
                prefix == self.target@.take(self.progress as int),
                i <= n,
                n == prefix.len(),
                count <= i,
                count + crate::text::count_words_rec(prefix.skip(i as int), prev_ws)
                    == crate::text::count_words_spec(prefix),
            decreases n - i,
        {
            let c = self.target[i];
            proof {
                assert(prefix.skip(i as int)[0] == prefix[i as int]);
                assert(prefix[i as int] == self.target@[i as int]);
                assert(prefix.skip(i as int).drop_first() =~= prefix.skip(i as int + 1));
            }
            if prev_ws && !crate::text::is_space(c) {
                count = count + 1;
            }
            prev_ws = crate::text::is_space(c);
            i = i + 1;
        }
        proof {
            assert(prefix.skip(n as int) =~= Seq::<char>::empty());
        }
        count
    }
}

/// Once the timer has started, at least one whole word of the target has
/// been typed, provided the target does not begin with whitespace (a passage
/// of joined words never does).
pub proof fn lemma_started_means_a_word_was_typed(s: Session)
    requires
        s.inv(),
        s.started,
        !crate::text::is_space_char(s.target@[0]),
    ensures
        crate::text::count_words_spec(s.target@.take(s.progress as int)) >= 1,
{
    crate::text::lemma_prefix_has_word(s.target@, s.progress as int);
}

/// Completion happens exactly by typing the whole target in order: a session
/// satisfying the invariant is complete if and only if the characters
/// accepted so far, in the order they were typed, are the entire target.
pub proof fn lemma_completion(s: Session)
    requires
        s.inv(),
    ensures
        s.complete() <==> s.accepted@ == s.target@,
{
    if s.complete() {
        assert(s.target@.take(s.progress as int) =~= s.target@);
    }
    if s.accepted@ == s.target@ {
        assert(s.target@.take(s.progress as int).len() == s.progress);
    }
}

} // verus!
