use vstd::prelude::*;
use zeroize::Zeroize;

verus! {

/// Sixteen zero bytes.
pub open spec fn zeroed() -> Seq<u8> {
    Seq::new(16, |i: int| 0u8)
}

/// Clears a key buffer with `zeroize::Zeroize::zeroize`, which the claim says
/// leaves every byte zero. That the compiler keeps the writes is not stated.
#[verifier::external_body]
fn wipe(bytes: &mut [u8; 16])
    ensures
        final(bytes)@ == zeroed(),
    opens_invariants none
    no_unwind
{
    bytes.zeroize();
}

/// Secret 128-bit key whose memory is cleared on drop.
pub struct KeyMaterial {
    bytes: [u8; 16],
}

impl View for KeyMaterial {
    type V = Seq<u8>;

    closed spec fn view(&self) -> Seq<u8> {
        self.bytes@
    }
}

impl KeyMaterial {
    /// Creates a key from an array whose ownership is transferred to the value.
    pub fn new(bytes: [u8; 16]) -> (key: Self)
        ensures
            key@ == bytes@,
    {
        KeyMaterial { bytes }
    }

    /// Copies a key into protected storage and immediately clears the caller's mutable buffer.
    pub fn new_and_zeroize(bytes: &mut [u8; 16]) -> (key: Self)
        ensures
            key@ == old(bytes)@,
            final(bytes)@ == zeroed(),
    {
        let key = KeyMaterial { bytes: *bytes };
        wipe(bytes);
        key
    }

    /// Describes the key for a diagnostic without showing it.
    pub fn description(&self) -> (text: &'static str)
        ensures
            text@ == "KeyMaterial([redacted])"@,
    {
        "KeyMaterial([redacted])"
    }

    /// Provides temporary byte access to a cryptographic provider.
    pub fn expose(&self) -> (bytes: &[u8; 16])
        ensures
            bytes@ == self@,
    {
        &self.bytes
    }
}

impl Drop for KeyMaterial {
    fn drop(&mut self)
        opens_invariants none
        no_unwind
    {
        wipe(&mut self.bytes);
    }
}

/// Whether a bit of a word is set.
pub open spec fn bit_set(word: u64, position: u64) -> bool {
    (word >> position) & 1 == 1
}

proof fn lemma_masked(word: u64, position: u64)
    by (bit_vector)
    requires
        position < 64,
    ensures
        (word & (1u64 << position) != 0) == bit_set(word, position),
        forall|other: u64|
            other < 64 ==> (#[trigger] bit_set(word | (1u64 << position), other) <==> bit_set(
                word,
                other,
            ) || other == position),
{
}

proof fn lemma_shifted(word: u64, shift: u64)
    by (bit_vector)
    requires
        0 < shift < 64,
    ensures
        forall|other: u64|
            other < 64 ==> (#[trigger] bit_set((word << shift) | 1, other) <==> other == 0 || (other
                >= shift && bit_set(word, (other - shift) as u64))),
{
}

proof fn lemma_single()
    by (bit_vector)
    ensures
        forall|other: u64| other < 64 ==> (#[trigger] bit_set(1, other) <==> other == 0),
{
}

/// What a replay window knows.
#[verifier::ext_equal]
pub struct WindowView {
    /// Greatest accepted counter.
    pub highest: Option<u32>,
    /// Accepted counters less than 64 behind the greatest.
    pub seen: Set<u32>,
}

impl WindowView {
    /// A window that has accepted nothing.
    pub open spec fn fresh() -> WindowView {
        WindowView { highest: None, seen: Set::empty() }
    }

    /// Why a counter is refused, if it is.
    pub open spec fn refusal(self, counter: u32) -> Option<SecurityError> {
        match self.highest {
            None => None,
            Some(highest) => if counter > highest {
                None
            } else if highest - counter >= 64 {
                Some(SecurityError::TooOld(counter))
            } else if self.seen.contains(counter) {
                Some(SecurityError::Replay(counter))
            } else {
                None
            },
        }
    }

    /// The window after a counter was accepted.
    pub open spec fn accepting(self, counter: u32) -> WindowView {
        let highest = match self.highest {
            Some(highest) => if counter > highest {
                counter
            } else {
                highest
            },
            None => counter,
        };
        WindowView {
            highest: Some(highest),
            seen: self.seen.insert(counter).filter(|other: u32| highest - other < 64),
        }
    }

    /// The window after a counter was offered.
    pub open spec fn offered(self, counter: u32) -> WindowView {
        if self.refusal(counter) is None {
            self.accepting(counter)
        } else {
            self
        }
    }

    /// The window after counters were offered one after the other.
    pub open spec fn offered_all(self, counters: Seq<u32>) -> WindowView
        decreases counters.len(),
    {
        if counters.len() == 0 {
            self
        } else {
            self.offered_all(counters.drop_last()).offered(counters.last())
        }
    }

    /// A counter that the window will never accept.
    pub open spec fn bars(self, counter: u32) -> bool {
        self.highest matches Some(highest) && (self.seen.contains(counter) && counter <= highest
            || counter < highest && highest - counter >= 64)
    }
}

/// A counter that was accepted once is refused for ever after, whatever else
/// is offered in between.
pub proof fn lemma_no_counter_is_accepted_twice(
    window: WindowView,
    counter: u32,
    between: Seq<u32>,
)
    requires
        window.refusal(counter) is None,
    ensures
        window.accepting(counter).offered_all(between).refusal(counter) is Some,
{
    lemma_barred_stays_barred(window.accepting(counter), counter, between);
}

proof fn lemma_barred_stays_barred(window: WindowView, counter: u32, between: Seq<u32>)
    requires
        window.bars(counter),
    ensures
        window.offered_all(between).bars(counter),
    decreases between.len(),
{
    if between.len() > 0 {
        lemma_barred_stays_barred(window, counter, between.drop_last());
    }
}

/// The greatest accepted counter never falls.
pub proof fn lemma_highest_never_falls(window: WindowView, counter: u32)
    ensures
        window.highest matches Some(highest) ==> window.offered(counter).highest matches Some(
            later,
        ) && later >= highest,
{
}

/// Sliding counter window for replay protection.
#[derive(Debug, Clone, Copy, PartialEq, Eq, Structural)]
pub struct ReplayWindow {
    highest: u32,
    seen: u64,
    initialized: bool,
}

impl View for ReplayWindow {
    type V = WindowView;

    closed spec fn view(&self) -> WindowView {
        WindowView {
            highest: if self.initialized {
                Some(self.highest)
            } else {
                None
            },
            seen: Set::new(
                |counter: u32|
                    self.initialized && counter <= self.highest && self.highest - counter < 64
                        && bit_set(self.seen, (self.highest - counter) as u64),
            ),
        }
    }
}

impl Default for ReplayWindow {
    fn default() -> (window: Self)
        ensures
            window@ == WindowView::fresh(),
    {
        let window = ReplayWindow { highest: 0, seen: 0, initialized: false };
        assert(window@.seen =~= Set::empty());
        window
    }
}

impl ReplayWindow {
    /// Validates a counter and records it when first observed.
    pub fn accept(&mut self, counter: u32) -> (result: Result<(), SecurityError>)
        ensures
            match old(self)@.refusal(counter) {
                Some(error) => result == Err::<(), SecurityError>(error)
                    && final(self)@ == old(self)@,
                None => result == Ok::<(), SecurityError>(())
                    && final(self)@ == old(self)@.accepting(counter),
            },
    {
        let ghost before = *old(self);
        if !self.initialized {
            self.highest = counter;
            self.seen = 1;
            self.initialized = true;
            proof {
                lemma_single();
                assert(before@.seen =~= Set::empty());
                assert(self@.seen =~= before@.accepting(counter).seen);
            }
            return Ok(());
        }
        if counter > self.highest {
            let shift: u32 = counter - self.highest;
            self.seen = if shift >= 64 {
                1
            } else {
                (self.seen << shift) | 1
            };
            self.highest = counter;
            proof {
                lemma_single();
                if shift < 64 {
                    lemma_shifted(before.seen, shift as u64);
                }
                assert forall|other: u32|
                    self@.seen.contains(other) == before@.accepting(counter).seen.contains(
                        other,
                    ) by {
                    if other <= counter && counter - other < 64 {
                        let age = (counter - other) as u64;
                        assert(bit_set(self.seen, age) == bit_set(self.seen, age));
                    }
                }
                assert(self@.seen =~= before@.accepting(counter).seen);
            }
            return Ok(());
        }
        let age: u32 = self.highest - counter;
        if age >= 64 {
            return Err(SecurityError::TooOld(counter));
        }
        let mask: u64 = 1u64 << age;
        proof {
            lemma_masked(before.seen, age as u64);
        }
        if self.seen & mask != 0 {
            return Err(SecurityError::Replay(counter));
        }
        self.seen = self.seen | mask;
        assert(self@.seen =~= before@.accepting(counter).seen);
        Ok(())
    }

    /// Returns the greatest accepted counter.
    pub fn highest(&self) -> (highest: Option<u32>)
        ensures
            highest == self@.highest,
    {
        if self.initialized {
            Some(self.highest)
        } else {
            None
        }
    }
}

/// Network-message security validation error.
#[derive(Debug, Clone, Copy, PartialEq, Eq, Structural)]
pub enum SecurityError {
    /// The counter was already observed.
    Replay(u32),
    /// The counter is outside the replay window.
    TooOld(u32),
}

} // verus!
