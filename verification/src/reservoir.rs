//! Reservoir sampling with a reservoir of one record.

use vstd::prelude::*;
use vstd::set_lib::{lemma_int_range, set_int_range};
use vstd::utf8::*;
use crate::stream::ToSignatures;

verus! {

/// `rand::rngs::ThreadRng`, the handle to the random number generator of the
/// current thread. It is carried from where it is obtained to where bits are
/// drawn and never looked into.
#[verifier::external_type_specification]
#[verifier::external_body]
pub struct ExThreadRng(rand::rngs::ThreadRng);

/// `rand::thread_rng` hands out the generator of the current thread, which
/// the operating system seeds on first use. Nothing is claimed of the handle.
/// Should the operating system fail to provide a seed, the call panics.
pub assume_specification[ rand::thread_rng ]() -> (rng: rand::rngs::ThreadRng)
;

/// Draws the next 64 bits from the generator, by `RngCore::next_u64`. Nothing
/// is claimed of them: every value can come out, and two draws need not agree.
#[verifier::external_body]
fn draw(rng: &mut rand::rngs::ThreadRng) -> (bits: u64) {
    rand::RngCore::next_u64(rng)
}

/// Number of random bits that count in one draw: the resolution of a
/// double-precision fraction.
pub const DRAW_BITS: u32 = 53;

/// Two to the power `DRAW_BITS`. A draw stands for the fraction
/// `numerator / DRAW_SCALE`, which lies in `[0, 1)`.
pub const DRAW_SCALE: u64 = 0x20_0000_0000_0000;

/// The numerator of the fraction that 64 random bits stand for: their
/// `DRAW_BITS` most significant bits.
pub open spec fn numerator(bits: u64) -> nat {
    (bits as nat) / 2048
}

/// Whether the record seen as number `seen` (counting from one) replaces the
/// held candidate under the draw `bits`: the drawn fraction times `seen` is
/// strictly below one.
pub open spec fn replaces(seen: nat, bits: u64) -> bool {
    numerator(bits) * seen < DRAW_SCALE as nat
}

/// Decides whether the record seen as number `seen` replaces the held
/// candidate.
pub fn accepts(seen: u64, bits: u64) -> (taken: bool)
    ensures
        taken == replaces(seen as nat, bits),
{
    let k: u64 = bits >> (u64::BITS - DRAW_BITS);
    assert(k == bits / 2048 && k < 0x20_0000_0000_0000u64) by (bit_vector)
        requires
            k == bits >> 11,
    ;
    assert(k as int * seen as int <= 0x20_0000_0000_0000 * 0xffff_ffff_ffff_ffff) by (nonlinear_arith)
        requires
            k < 0x20_0000_0000_0000u64,
            seen <= 0xffff_ffff_ffff_ffffu64,
    ;
    let product: u128 = (k as u128) * (seen as u128);
    product < (DRAW_SCALE as u128)
}

/// What a `ReservoirSelector` is: how many records it has been offered, and
/// the text of the one it holds.
pub struct SelectionState {
    pub seen: nat,
    pub held: Option<Seq<char>>,
}

impl SelectionState {
    /// The state before any record.
    pub open spec fn start() -> SelectionState {
        SelectionState { seen: 0, held: None }
    }

    /// The state after one more record, offered under the draw `bits`.
    pub open spec fn after(self, record: Seq<char>, bits: u64) -> SelectionState {
        SelectionState {
            seen: self.seen + 1,
            held: if replaces(self.seen + 1, bits) {
                Some(record)
            } else {
                self.held
            },
        }
    }
}

/// A count of records. The number it keeps stops at `u64::MAX`; the number it
/// stands for does not.
struct Tally {
    kept: u64,
    all: Ghost<nat>,
}

impl Tally {
    #[verifier::type_invariant]
    spec fn kept_is_capped(self) -> bool {
        self.kept as nat == if self.all@ <= u64::MAX {
            self.all@
        } else {
            u64::MAX as nat
        }
    }

    /// The count of nothing.
    fn zero() -> (tally: Tally)
        ensures
            tally.all@ == 0,
            tally.kept == 0,
    {
        Tally { kept: 0, all: Ghost(0) }
    }

    /// The count of one more.
    fn bumped(&self) -> (tally: Tally)
        ensures
            tally.all@ == self.all@ + 1,
            tally.kept as nat == if self.all@ < u64::MAX {
                self.all@ + 1
            } else {
                u64::MAX as nat
            },
    {
        proof {
            use_type_invariant(self);
        }
        let kept: u64 = if self.kept < u64::MAX {
            self.kept + 1
        } else {
            u64::MAX
        };
        Tally { kept, all: Ghost((self.all@ + 1) as nat) }
    }
}

/// Picks one record out of those offered to it, holding one record at a time.
pub struct ReservoirSelector {
    tally: Tally,
    held: Option<String>,
}

impl View for ReservoirSelector {
    type V = SelectionState;

    closed spec fn view(&self) -> SelectionState {
        SelectionState {
            seen: self.tally.all@,
            held: match self.held {
                Some(text) => Some(text@),
                None => None,
            },
        }
    }
}

impl ReservoirSelector {
    #[verifier::type_invariant]
    spec fn holds_once_offered(self) -> bool {
        (self.tally.all@ == 0) == (self.held is None)
    }

    /// A selector that has seen nothing.
    pub fn new() -> (selector: Self)
        ensures
            selector@ == SelectionState::start(),
    {
        ReservoirSelector { tally: Tally::zero(), held: None }
    }

    /// The number of records offered so far, as far as a `u64` can tell:
    /// beyond `u64::MAX` it stays there.
    pub fn seen(&self) -> (seen: u64)
        ensures
            seen as nat == if self@.seen <= u64::MAX {
                self@.seen
            } else {
                u64::MAX as nat
            },
    {
        proof {
            use_type_invariant(&self.tally);
        }
        self.tally.kept
    }

    /// Offers a record together with the random bits drawn for it. The record
    /// replaces the held one exactly when `replaces` says so of its number and
    /// the bits. Whatever the bits, a record is held afterwards.
    pub fn consider(&mut self, record: String, bits: u64)
        ensures
            final(self)@ == old(self)@.after(record@, bits),
            final(self)@.held is Some,
    {
        proof {
            use_type_invariant(&*self);
        }
        let tally = self.tally.bumped();
        let taken = accepts(tally.kept, bits);
        proof {
            lemma_first_always_replaces(bits);
            if tally.kept as nat != tally.all@ {
                lemma_beyond_the_scale(tally.kept as nat, bits);
                lemma_beyond_the_scale(tally.all@, bits);
            }
        }
        if taken {
            *self = ReservoirSelector { tally, held: Some(record) };
        } else {
            self.tally = tally;
        }
    }

    /// Offers a record and draws the random bits for it from the generator of
    /// the current thread: the outcome is that of `consider` under some draw.
    pub fn offer(&mut self, record: String)
        ensures
            exists|bits: u64| final(self)@ == #[trigger] old(self)@.after(record@, bits),
            final(self)@.held is Some,
    {
        let mut rng = rand::thread_rng();
        let bits = draw(&mut rng);
        self.consider(record, bits);
    }

    /// The record held at the end, or `None` if none was ever offered.
    pub fn finish(self) -> (chosen: Option<String>)
        ensures
            chosen is None <==> self@.seen == 0,
            match chosen {
                Some(text) => self@.held == Some(text@),
                None => self@.held is None,
            },
    {
        proof {
            use_type_invariant(&self);
        }
        self.held
    }
}

/// From the scale on, the number of a record no longer matters: it replaces
/// the held one under the numerator zero alone.
pub proof fn lemma_beyond_the_scale(seen: nat, bits: u64)
    requires
        seen >= DRAW_SCALE,
    ensures
        replaces(seen, bits) <==> numerator(bits) == 0,
{
    let k = numerator(bits) as int;
    let n = seen as int;
    if k == 0 {
        assert(k * n == 0) by (nonlinear_arith)
            requires
                k == 0,
        ;
    } else {
        assert(k * n >= n) by (nonlinear_arith)
            requires
                k >= 1,
                n >= 0,
        ;
    }
}

/// The first record offered is always taken: a fraction below one times one is
/// below one.
pub proof fn lemma_first_always_replaces(bits: u64)
    ensures
        replaces(1, bits),
{
    assert(bits / 2048 < 0x20_0000_0000_0000u64) by (bit_vector);
}

/// Of the numerators a draw can have, those under which record number `seen`
/// replaces the held one are exactly the ones up to `(DRAW_SCALE - 1) / seen`.
pub proof fn lemma_replacement_threshold(seen: nat, bits: u64)
    requires
        seen >= 1,
    ensures
        replaces(seen, bits) <==> numerator(bits) <= (DRAW_SCALE - 1) / (seen as int),
{
    lemma_threshold(seen as int, numerator(bits) as int);
}

/// A numerator times `n` stays below the scale exactly up to the threshold.
proof fn lemma_threshold(n: int, k: int)
    requires
        n >= 1,
        k >= 0,
    ensures
        k * n < DRAW_SCALE <==> k <= (DRAW_SCALE - 1) / n,
        0 <= (DRAW_SCALE - 1) / n < DRAW_SCALE,
{
    let top = DRAW_SCALE as int - 1;
    assert(k * n <= top <==> k <= top / n) by (nonlinear_arith)
        requires
            n >= 1,
            k >= 0,
            top >= 0,
    ;
    assert(0 <= top / n <= top) by (nonlinear_arith)
        requires
            n >= 1,
            top >= 0,
    ;
}

/// The numerators under which record number `seen` replaces the held one.
pub open spec fn replacing_numerators(seen: nat) -> Set<int> {
    Set::new(|k: int| 0 <= k < DRAW_SCALE && k * seen < DRAW_SCALE)
}

/// How likely a replacement is: of the `DRAW_SCALE` numerators, which a
/// uniform draw takes with equal chance, record number `seen` is taken under
/// one in `seen`, rounded up. For the first record these are all of them.
pub proof fn lemma_replacement_count(seen: nat)
    requires
        seen >= 1,
    ensures
        replacing_numerators(seen).finite(),
        replacing_numerators(seen).len() == (DRAW_SCALE - 1) / (seen as int) + 1,
        seen == 1 ==> replacing_numerators(seen).len() == DRAW_SCALE,
{
    let n = seen as int;
    let threshold = (DRAW_SCALE - 1) / n;
    lemma_threshold(n, 0);
    assert forall|k: int| replacing_numerators(seen).contains(k) <==> set_int_range(
        0,
        threshold + 1,
    ).contains(k) by {
        if k >= 0 {
            lemma_threshold(n, k);
        }
    }
    assert(replacing_numerators(seen) =~= set_int_range(0, threshold + 1));
    lemma_int_range(0, threshold + 1);
}

/// The texts that records encode.
pub open spec fn texts_of(records: Seq<Seq<u8>>) -> Seq<Seq<char>> {
    Seq::new(records.len(), |i: int| decode_utf8(records[i]))
}

/// The selection after the records `texts` have been offered in order, each
/// under the draw of the same index.
pub open spec fn selection_of(texts: Seq<Seq<char>>, draws: Seq<u64>) -> SelectionState
    decreases texts.len(),
{
    if texts.len() == 0 {
        SelectionState::start()
    } else {
        selection_of(texts.drop_last(), draws.drop_last()).after(texts.last(), draws.last())
    }
}

/// A selection never makes a record up: it holds nothing exactly when nothing
/// was offered, and what it holds is one of the records offered, whatever the
/// draws.
pub proof fn lemma_selection_is_offered(texts: Seq<Seq<char>>, draws: Seq<u64>)
    ensures
        selection_of(texts, draws).seen == texts.len(),
        selection_of(texts, draws).held is None <==> texts.len() == 0,
        selection_of(texts, draws).held matches Some(text) ==> exists|i: int|
            0 <= i < texts.len() && texts[i] == text,
    decreases texts.len(),
{
    if texts.len() > 0 {
        let before = selection_of(texts.drop_last(), draws.drop_last());
        lemma_selection_is_offered(texts.drop_last(), draws.drop_last());
        if texts.len() == 1 {
            lemma_first_always_replaces(draws.last());
        }
        if replaces(before.seen + 1, draws.last()) {
            assert(texts[texts.len() - 1] == texts.last());
        } else {
            let i = choose|i: int|
                0 <= i < texts.drop_last().len() && texts.drop_last()[i] == before.held->0;
            assert(texts[i] == before.held->0);
        }
    }
}

/// Takes every record still to come from `stream` and returns one of them,
/// chosen by reservoir sampling with one draw per record from the generator of
/// the current thread; `None` if no record was left.
pub fn select_signature(stream: &mut ToSignatures) -> (chosen: Option<String>)
    ensures
        final(stream)@.source == old(stream)@.source,
        final(stream)@.status == old(stream)@.outcome(),
        exists|draws: Seq<u64>|
            draws.len() == old(stream)@.remaining().len() && (#[trigger] selection_of(
                texts_of(old(stream)@.remaining()),
                draws,
            )).held == match chosen {
                Some(text) => Some(text@),
                None => None,
            },
        chosen is None <==> old(stream)@.remaining().len() == 0,
        chosen matches Some(text) ==> exists|i: int|
            0 <= i < old(stream)@.remaining().len() && encode_utf8(text@) == old(
                stream,
            )@.remaining()[i],
{
    let mut rng = rand::thread_rng();
    let mut selector = ReservoirSelector::new();
    let ghost records = old(stream)@.remaining();
    let ghost texts = texts_of(records);
    let ghost mut draws: Seq<u64> = Seq::empty();
    proof {
        assert(texts.take(0) =~= Seq::<Seq<char>>::empty());
    }
    loop
        invariant
            records == old(stream)@.remaining(),
            texts == texts_of(records),
            stream@.source == old(stream)@.source,
            stream@.outcome() == old(stream)@.outcome(),
            draws.len() == selector@.seen,
            draws.len() + stream@.remaining().len() == records.len(),
            forall|j: int|
                0 <= j < stream@.remaining().len() ==> #[trigger] stream@.remaining()[j]
                    == records[draws.len() + j],
            forall|i: int|
                0 <= i < draws.len() ==> #[trigger] encode_utf8(texts[i]) == records[i],
            selector@ == selection_of(texts.take(draws.len() as int), draws),
        decreases stream@.remaining().len(),
    {
        let ghost before = stream@;
        match stream.next() {
            None => {
                proof {
                    assert(texts.take(draws.len() as int) =~= texts);
                    lemma_selection_is_offered(texts, draws);
                }
                let chosen = selector.finish();
                proof {
                    if chosen is Some {
                        let i = choose|i: int| 0 <= i < texts.len() && texts[i] == chosen->0@;
                        assert(encode_utf8(texts[i]) == records[i]);
                    }
                }
                return chosen;
            },
            Some(text) => {
                let bits = draw(&mut rng);
                proof {
                    let k = draws.len() as int;
                    assert(before.remaining()[0] == records[k]);
                    encode_utf8_decode_utf8(text@);
                    assert(texts[k] == text@);
                    assert(texts.take(k + 1).drop_last() =~= texts.take(k));
                    assert(texts.take(k + 1).last() == texts[k]);
                    assert(draws.push(bits).drop_last() =~= draws);
                    draws = draws.push(bits);
                }
                selector.consider(text, bits);
            },
        }
    }
}

} // verus!
