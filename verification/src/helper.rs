//! Miscellaneous helper utilities shared by the rest of the crate.

use vstd::prelude::*;

verus! {

/// Borrowing a value's textual form directly, without an intermediate
/// conversion step.  Implemented by callers for the path types they hand
/// in.
pub trait ImmediateToStr {
    fn imm_to_str(&self) -> &str;
}

/// The deduplication state of one-time warnings: the set of messages that
/// were already emitted, kept as explicit state owned by the run.
pub struct WarningLog {
    messages: Vec<String>,
}

impl View for WarningLog {
    type V = Seq<Seq<char>>;

    closed spec fn view(&self) -> Seq<Seq<char>> {
        self.messages@.map_values(|m: String| m@)
    }
}

impl WarningLog {
    /// A log with no messages recorded.
    pub fn new() -> (r: Self)
        ensures
            r@ == Seq::<Seq<char>>::empty(),
    {
        let r = WarningLog { messages: Vec::new() };
        proof {
            assert(r@ =~= Seq::<Seq<char>>::empty());
        }
        r
    }

    /// Whether a message was recorded before.
    pub fn contains(&self, message: &str) -> (r: bool)
        ensures
            r == self@.contains(message@),
    {
        let owned: String = message.to_owned();
        let n = self.messages.len();
        let mut i: usize = 0;
        while i < n
            invariant
                owned@ == message@,
                n == self.messages@.len(),
                i <= n,
                forall|j: int| 0 <= j < i ==> #[trigger] self@[j] != message@,
            decreases n - i,
        {
            let recorded: &String = &self.messages[i];
            if recorded.eq(&owned) {
                proof {
                    assert(self@[i as int] == message@);
                }
                return true;
            }
            proof {
                assert(self@[i as int] == recorded@);
            }
            i = i + 1;
        }
        proof {
            if self@.contains(message@) {
                let j = choose|j: int| 0 <= j < self@.len() && self@[j] == message@;
                assert(self@[j] != message@);
            }
        }
        false
    }

    /// Records a message; the result says whether it was new, so that the
    /// caller emits each distinct warning at most once per run.
    pub fn record(&mut self, message: &str) -> (r: bool)
        ensures
            r == !old(self)@.contains(message@),
            r ==> final(self)@ == old(self)@.push(message@),
            !r ==> final(self)@ == old(self)@,
    {
        if self.contains(message) {
            false
        } else {
            let ghost before = self@;
            self.messages.push(message.to_owned());
            proof {
                assert(self@ =~= before.push(message@));
            }
            true
        }
    }
}

} // verus!
