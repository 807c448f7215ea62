//! Uniswap V4 pools. A V4 pool is known by its 32-byte id; its key comes
//! from the PositionManager, its state and ticks from the StateView contract.
//! Its ticks are read word by word from the tick bitmap, then tick by tick:
//! `TickScan` decides what to ask next and collects the answers.

use vstd::prelude::*;

use crate::primitives::{Address, B256};
use crate::ticks::{
    TickBitmap, fits_int24, get_word_positions, lemma_word_ticks_ordered, ticks_in_word, word_positions,
    word_ticks,
};
use crate::types::Protocol;

verus! {

/// The bytes of the StateView contract's address.
pub open spec fn state_view_bytes() -> Seq<u8> {
    seq![0x7f, 0xFE, 0x42, 0xC4, 0xa5, 0xDE, 0xeA, 0x5b, 0x0f, 0xeC, 0x41, 0xC9, 0x4C, 0x13, 0x6C, 0xf1, 0x15, 0x59, 0x72, 0x27]
}

/// The bytes of the PositionManager contract's address.
pub open spec fn position_manager_bytes() -> Seq<u8> {
    seq![0xbD, 0x21, 0x65, 0x13, 0xd7, 0x4C, 0x8c, 0xf1, 0x4c, 0xf4, 0x74, 0x7E, 0x6A, 0xaA, 0x64, 0x20, 0xFF, 0x64, 0xee, 0x9e]
}

/// The address of the StateView contract, which reads V4 pool state.
pub fn state_view() -> (address: Address)
    ensures
        address.bytes@ == state_view_bytes(),
{
    let address = Address {
        bytes: [0x7f, 0xFE, 0x42, 0xC4, 0xa5, 0xDE, 0xeA, 0x5b, 0x0f, 0xeC, 0x41, 0xC9, 0x4C, 0x13, 0x6C, 0xf1, 0x15, 0x59, 0x72, 0x27],
    };
    assert(address.bytes@ =~= state_view_bytes());
    address
}

/// The address of the PositionManager contract, which knows the key of each
/// V4 pool and creates its positions.
pub fn position_manager() -> (address: Address)
    ensures
        address.bytes@ == position_manager_bytes(),
{
    let address = Address {
        bytes: [0xbD, 0x21, 0x65, 0x13, 0xd7, 0x4C, 0x8c, 0xf1, 0x4c, 0xf4, 0x74, 0x7E, 0x6A, 0xaA, 0x64, 0x20, 0xFF, 0x64, 0xee, 0x9e],
    };
    assert(address.bytes@ =~= position_manager_bytes());
    address
}

/// The 25-byte prefix of a pool id, by which the PositionManager stores the
/// pool's key.
pub fn pool_key_prefix(pool_id: &B256) -> (prefix: [u8; 25])
    ensures
        prefix@ == pool_id.bytes@.take(25),
{
    let mut prefix = [0u8; 25];
    let mut i: usize = 0;
    while i < 25
        invariant
            i <= 25,
            forall|j: int| 0 <= j < i ==> prefix@[j] == pool_id.bytes@[j],
        decreases 25 - i,
    {
        prefix[i] = pool_id.bytes[i];
        i = i + 1;
    }
    assert(prefix@ =~= pool_id.bytes@.take(25));
    prefix
}

/// An initialized tick of a V4 pool and its liquidity.
#[derive(Clone, Copy, Debug, PartialEq, Eq, Structural)]
pub struct ProcessedTick {
    pub index: i32,
    pub liquidity_gross: u128,
    pub liquidity_net: i128,
}

/// What the PositionManager knows of a pool: its currencies, its fee (a
/// `uint24`) and its tick spacing (an `int24`).
#[derive(Clone, Copy, Debug)]
pub struct PoolKey {
    pub currency0: Address,
    pub currency1: Address,
    pub fee: u32,
    pub tick_spacing: i32,
}

/// What is known of a Uniswap V4 pool.
#[derive(Debug)]
pub struct UniswapV4PoolData {
    pub ticks: Vec<ProcessedTick>,
    pub pool_id: B256,
    pub protocol: Protocol,
    pub creator_contract: Option<Address>,
    pub tokens: Vec<Address>,
    pub fee: u64,
    pub sqrt_price_x96: u128,
    pub liquidity: u128,
    pub tick: i64,
    pub tick_spacing: i64,
    pub max_liquidity_per_tick: u128,
}

/// The record of a Uniswap V4 pool from its key, its state (square-root price,
/// liquidity and current tick) and its ticks. The pool's creator is the
/// PositionManager; the tick spacing is recorded without its sign; V4 keeps
/// no maximum liquidity per tick, so it is recorded as 0.
pub fn uniswap_v4_pool_data(
    pool_id: B256,
    key: PoolKey,
    sqrt_price_x96: u128,
    liquidity: u128,
    tick: i32,
    ticks: Vec<ProcessedTick>,
) -> (data: UniswapV4PoolData)
    requires
        fits_int24(key.tick_spacing as int),
    ensures
        data.pool_id == pool_id,
        data.ticks@ == ticks@,
        data.protocol == Protocol::UniswapV4,
        data.creator_contract matches Some(c) && c.bytes@ == position_manager_bytes(),
        data.tokens@ == seq![key.currency0, key.currency1],
        data.fee == key.fee,
        data.sqrt_price_x96 == sqrt_price_x96,
        data.liquidity == liquidity,
        data.tick == tick,
        data.tick_spacing == (if key.tick_spacing < 0 { -key.tick_spacing } else { key.tick_spacing as int }),
        data.max_liquidity_per_tick == 0,
{
    let tick_spacing: i64 = if key.tick_spacing < 0 {
        -(key.tick_spacing as i64)
    } else {
        key.tick_spacing as i64
    };
    UniswapV4PoolData {
        pool_id,
        protocol: Protocol::UniswapV4,
        creator_contract: Some(position_manager()),
        tokens: vec![key.currency0, key.currency1],
        fee: key.fee as u64,
        sqrt_price_x96,
        liquidity,
        tick: tick as i64,
        tick_spacing,
        max_liquidity_per_tick: 0,
        ticks,
    }
}

/// What a tick scan asks for next.
#[derive(Clone, Copy, Debug, PartialEq, Eq, Structural)]
pub enum ScanStep {
    /// The tick bitmap word at this position.
    FetchBitmap(i16),
    /// The liquidity of this tick.
    FetchLiquidity(i32),
    /// Nothing: the scan is complete.
    Done,
}

/// A tick of a bitmap word does not fit in an `int24`.
#[derive(Clone, Copy, Debug, PartialEq, Eq, Structural)]
pub struct TickOutOfRange;

/// The scan of a pool's initialized ticks: each bitmap word from the first to
/// the last that can hold a tick, then the liquidity of each tick that the
/// word marks, in bit order.
pub struct TickScan {
    tick_spacing: i32,
    first_word: i32,
    next_word: i32,
    last_word: i32,
    pending: Vec<i32>,
    ticks: Vec<ProcessedTick>,
    bitmaps: Ghost<Seq<TickBitmap>>,
    answers: Ghost<Seq<Option<(u128, i128)>>>,
}

/// The ticks of consecutive bitmap words, the first at `first_word`, in
/// order: word by word, and within a word in bit order.
pub open spec fn scanned_ticks(first_word: int, bitmaps: Seq<TickBitmap>, tick_spacing: int) -> Seq<int>
    decreases bitmaps.len(),
{
    if bitmaps.len() == 0 {
        seq![]
    } else {
        scanned_ticks(first_word, bitmaps.drop_last(), tick_spacing) + word_ticks(
            first_word + bitmaps.len() - 1,
            bitmaps.last(),
            tick_spacing,
        )
    }
}

/// The indices of tick records.
pub open spec fn tick_indices(ticks: Seq<ProcessedTick>) -> Seq<int> {
    ticks.map_values(|t: ProcessedTick| t.index as int)
}

/// The record of a tick, from the answer of its liquidity call (`None` when
/// the call failed: the tick is then recorded with no liquidity).
pub open spec fn processed_tick(index: int, liquidity: Option<(u128, i128)>) -> ProcessedTick {
    match liquidity {
        Some((gross, net)) => ProcessedTick { index: index as i32, liquidity_gross: gross, liquidity_net: net },
        None => ProcessedTick { index: index as i32, liquidity_gross: 0, liquidity_net: 0 },
    }
}

impl TickScan {
    /// The tick spacing of the pool.
    pub closed spec fn spacing(&self) -> int {
        self.tick_spacing as int
    }

    /// The bitmap word to fetch next.
    pub closed spec fn next_word(&self) -> int {
        self.next_word as int
    }

    /// The last bitmap word to fetch.
    pub closed spec fn last_word(&self) -> int {
        self.last_word as int
    }

    /// The first bitmap word of the scan.
    pub closed spec fn first_word(&self) -> int {
        self.first_word as int
    }

    /// The bitmap words received so far, from the first word on.
    pub closed spec fn bitmaps(&self) -> Seq<TickBitmap> {
        self.bitmaps@
    }

    /// The liquidity answers received so far, in the order of the ticks.
    pub closed spec fn answers(&self) -> Seq<Option<(u128, i128)>> {
        self.answers@
    }

    /// The ticks of the last word fetched whose liquidity is still to fetch.
    pub closed spec fn pending(&self) -> Seq<int> {
        self.pending@.map_values(|t: i32| t as int)
    }

    /// The ticks collected so far.
    pub closed spec fn collected(&self) -> Seq<ProcessedTick> {
        self.ticks@
    }

    /// The scan's state is consistent.
    pub closed spec fn wf(&self) -> bool {
        &&& self.tick_spacing != 0
        &&& -0x8000 <= self.next_word <= 0x8000
        &&& -0x8000 <= self.last_word < 0x8000
        &&& forall|i: int| 0 <= i < self.pending@.len() ==> fits_int24(#[trigger] self.pending@[i] as int)
        &&& self.tick_spacing > 0 ==> self.ordered()
        &&& self.follows_history()
    }

    /// The state is what the answers received so far make it: one bitmap
    /// per word from the first, the ticks of those words collected or
    /// pending in order, and each collected tick with its answer.
    closed spec fn follows_history(&self) -> bool {
        &&& self.next_word == self.first_word + self.bitmaps@.len()
        &&& self.first_word <= self.last_word + 1 ==> self.next_word <= self.last_word + 1
        &&& self.first_word > self.last_word ==> self.bitmaps@.len() == 0
        &&& tick_indices(self.ticks@) + self.pending() == scanned_ticks(
            self.first_word as int,
            self.bitmaps@,
            self.tick_spacing as int,
        )
        &&& self.answers@.len() == self.ticks@.len()
        &&& forall|i: int| 0 <= i < self.ticks@.len()
            ==> #[trigger] self.ticks@[i] == processed_tick(self.ticks@[i].index as int, self.answers@[i])
    }

    /// For a positive spacing: the collected ticks and then the pending ones
    /// come in strictly increasing order, all below the first tick of the
    /// next word.
    closed spec fn ordered(&self) -> bool {
        let bound = self.next_word as int * 256 * self.tick_spacing as int;
        &&& forall|i: int, j: int| 0 <= i < j < self.ticks@.len()
            ==> #[trigger] self.ticks@[i].index < #[trigger] self.ticks@[j].index
        &&& forall|i: int, j: int| 0 <= i < j < self.pending@.len()
            ==> #[trigger] self.pending@[i] < #[trigger] self.pending@[j]
        &&& forall|i: int, j: int| 0 <= i < self.ticks@.len() && 0 <= j < self.pending@.len()
            ==> #[trigger] self.ticks@[i].index < #[trigger] self.pending@[j]
        &&& forall|i: int| 0 <= i < self.ticks@.len() ==> (#[trigger] self.ticks@[i]).index < bound
        &&& forall|j: int| 0 <= j < self.pending@.len() ==> #[trigger] self.pending@[j] < bound
    }

    /// Starts the scan of a pool with this tick spacing.
    pub fn new(tick_spacing: i32) -> (scan: TickScan)
        requires
            tick_spacing != 0,
        ensures
            scan.wf(),
            scan.spacing() == tick_spacing,
            scan.next_word() == word_positions(tick_spacing as int).0,
            scan.last_word() == word_positions(tick_spacing as int).1,
            scan.first_word() == scan.next_word(),
            scan.pending() == Seq::<int>::empty(),
            scan.collected() == Seq::<ProcessedTick>::empty(),
            scan.bitmaps() == Seq::<TickBitmap>::empty(),
            scan.answers() == Seq::<Option<(u128, i128)>>::empty(),
    {
        let (lower, upper) = get_word_positions(tick_spacing);
        let scan = TickScan {
            tick_spacing,
            first_word: lower as i32,
            next_word: lower as i32,
            last_word: upper as i32,
            pending: Vec::new(),
            ticks: Vec::new(),
            bitmaps: Ghost(Seq::empty()),
            answers: Ghost(Seq::empty()),
        };
        assert(scan.pending() =~= Seq::<int>::empty());
        assert(tick_indices(scan.ticks@) + scan.pending() =~= Seq::<int>::empty());
        scan
    }

    /// What the scan needs next: the liquidity of the first pending tick;
    /// else the next bitmap word, while one is left; else nothing.
    pub fn next_step(&self) -> (step: ScanStep)
        requires
            self.wf(),
        ensures
            self.pending().len() > 0 ==> step == ScanStep::FetchLiquidity(self.pending()[0] as i32),
            self.pending().len() == 0 && self.next_word() <= self.last_word() ==> step
                == ScanStep::FetchBitmap(self.next_word() as i16),
            self.pending().len() == 0 && self.next_word() > self.last_word() ==> step
                == ScanStep::Done,
    {
        if self.pending.len() > 0 {
            ScanStep::FetchLiquidity(self.pending[0])
        } else if self.next_word <= self.last_word {
            ScanStep::FetchBitmap(self.next_word as i16)
        } else {
            ScanStep::Done
        }
    }

    /// Takes the 256-bit bitmap word that the scan asked for (0 when the call
    /// failed): its ticks become the pending ones, and the scan moves on to
    /// the next word. Fails, and leaves the scan as it was, when one of the
    /// word's ticks does not fit in an `int24`.
    pub fn on_bitmap(&mut self, bitmap: TickBitmap) -> (result: Result<(), TickOutOfRange>)
        requires
            old(self).wf(),
            old(self).pending().len() == 0,
            old(self).next_word() <= old(self).last_word(),
        ensures
            final(self).wf(),
            result is Ok <==> forall|i: int|
                0 <= i < word_ticks(old(self).next_word(), bitmap, old(self).spacing()).len()
                    ==> fits_int24(#[trigger] word_ticks(old(self).next_word(), bitmap, old(self).spacing())[i]),
            result is Ok ==> final(self).pending() == word_ticks(old(self).next_word(), bitmap, old(self).spacing())
                && final(self).next_word() == old(self).next_word() + 1,
            result is Ok ==> final(self).bitmaps() == old(self).bitmaps().push(bitmap),
            result is Err ==> final(self).pending() == old(self).pending() && final(self).next_word()
                == old(self).next_word() && final(self).bitmaps() == old(self).bitmaps(),
            final(self).spacing() == old(self).spacing(),
            final(self).first_word() == old(self).first_word(),
            final(self).last_word() == old(self).last_word(),
            final(self).collected() == old(self).collected(),
            final(self).answers() == old(self).answers(),
    {
        let word = self.next_word as i16;
        let ghost w = word_ticks(old(self).next_word(), bitmap, old(self).spacing());
        assert(word as int == old(self).next_word());
        let found = ticks_in_word(word, bitmap, self.tick_spacing);
        assert(found is Some <==> forall|i: int| 0 <= i < w.len() ==> fits_int24(#[trigger] w[i]));
        match found {
            Some(ticks) => {
                self.pending = ticks;
                self.next_word = self.next_word + 1;
                proof {
                    self.bitmaps@ = self.bitmaps@.push(bitmap);
                    assert(self.pending() =~= w);
                    let ob = old(self).bitmaps@;
                    assert(self.bitmaps@.drop_last() =~= ob);
                    assert(old(self).pending() =~= Seq::<int>::empty());
                    assert(tick_indices(old(self).ticks@) + old(self).pending() =~= tick_indices(
                        old(self).ticks@,
                    ));
                    assert(tick_indices(self.ticks@) + self.pending() =~= scanned_ticks(
                        self.first_word as int,
                        self.bitmaps@,
                        self.tick_spacing as int,
                    ));
                    if self.tick_spacing > 0 {
                        lemma_scan_word_ordered(old(self).next_word(), bitmap, old(self).spacing());
                        let sp = self.tick_spacing as int;
                        let ow = old(self).next_word as int;
                        assert forall|j: int| 0 <= j < self.pending@.len()
                            implies ow * 256 * sp <= #[trigger] self.pending@[j] < (ow + 1) * 256 * sp by {
                            assert(self.pending@[j] as int == w[j]);
                        }
                        assert((ow + 1) * 256 * sp == self.next_word as int * 256 * sp);
                        assert(ow * 256 * sp <= (ow + 1) * 256 * sp) by (nonlinear_arith) requires sp > 0;
                        assert forall|i: int, j: int| 0 <= i < j < self.pending@.len()
                            implies #[trigger] self.pending@[i] < #[trigger] self.pending@[j] by {
                            assert(self.pending@[i] as int == w[i]);
                            assert(self.pending@[j] as int == w[j]);
                        }
                        assert forall|i: int, j: int| 0 <= i < self.ticks@.len() && 0 <= j < self.pending@.len()
                            implies #[trigger] self.ticks@[i].index < #[trigger] self.pending@[j] by {
                            assert(self.ticks@[i] == old(self).ticks@[i]);
                        }
                        assert forall|i: int| 0 <= i < self.ticks@.len()
                            implies (#[trigger] self.ticks@[i]).index < self.next_word as int * 256 * sp by {
                            assert(self.ticks@[i] == old(self).ticks@[i]);
                        }
                    }
                    assert forall|i: int| 0 <= i < self.pending@.len()
                        implies fits_int24(#[trigger] self.pending@[i] as int) by {
                        assert(self.pending@[i] as int == w[i]);
                    }
                }
                Ok(())
            },
            None => Err(TickOutOfRange),
        }
    }

    /// Takes the liquidity of the first pending tick (`None` when the call
    /// failed) and records that tick.
    pub fn on_liquidity(&mut self, liquidity: Option<(u128, i128)>)
        requires
            old(self).wf(),
            old(self).pending().len() > 0,
        ensures
            final(self).wf(),
            final(self).collected() == old(self).collected().push(
                processed_tick(old(self).pending()[0], liquidity),
            ),
            final(self).collected().len() == old(self).collected().len() + 1,
            final(self).collected().last().index == old(self).pending()[0],
            liquidity matches Some((gross, net)) ==> final(self).collected().last().liquidity_gross
                == gross && final(self).collected().last().liquidity_net == net,
            liquidity is None ==> final(self).collected().last().liquidity_gross == 0
                && final(self).collected().last().liquidity_net == 0,
            final(self).pending() == old(self).pending().drop_first(),
            final(self).answers() == old(self).answers().push(liquidity),
            final(self).spacing() == old(self).spacing(),
            final(self).first_word() == old(self).first_word(),
            final(self).next_word() == old(self).next_word(),
            final(self).last_word() == old(self).last_word(),
            final(self).bitmaps() == old(self).bitmaps(),
    {
        let index = self.pending.remove(0);
        let (liquidity_gross, liquidity_net) = match liquidity {
            Some((gross, net)) => (gross, net),
            None => (0u128, 0i128),
        };
        self.ticks.push(ProcessedTick { index, liquidity_gross, liquidity_net });
        proof {
            self.answers@ = self.answers@.push(liquidity);
            assert(tick_indices(self.ticks@) + self.pending() =~= tick_indices(old(self).ticks@)
                + old(self).pending());
            assert forall|i: int| 0 <= i < self.ticks@.len()
                implies #[trigger] self.ticks@[i] == processed_tick(self.ticks@[i].index as int, self.answers@[i]) by {
                if i < old(self).ticks@.len() {
                    assert(self.ticks@[i] == old(self).ticks@[i]);
                }
            }
            assert(self.pending() =~= old(self).pending().drop_first());
            assert forall|i: int| 0 <= i < self.pending@.len()
                implies fits_int24(#[trigger] self.pending@[i] as int) by {
                assert(self.pending@[i] == old(self).pending@[i + 1]);
            }
            if self.tick_spacing > 0 {
                let n = old(self).ticks@.len();
                assert forall|i: int, j: int| 0 <= i < j < self.ticks@.len()
                    implies #[trigger] self.ticks@[i].index < #[trigger] self.ticks@[j].index by {
                    if j == n {
                        assert(self.ticks@[i] == old(self).ticks@[i]);
                        assert(old(self).ticks@[i].index < old(self).pending@[0]);
                    } else {
                        assert(self.ticks@[i] == old(self).ticks@[i]);
                        assert(self.ticks@[j] == old(self).ticks@[j]);
                    }
                }
                assert forall|i: int, j: int| 0 <= i < j < self.pending@.len()
                    implies #[trigger] self.pending@[i] < #[trigger] self.pending@[j] by {
                    assert(self.pending@[i] == old(self).pending@[i + 1]);
                    assert(self.pending@[j] == old(self).pending@[j + 1]);
                }
                assert forall|i: int, j: int| 0 <= i < self.ticks@.len() && 0 <= j < self.pending@.len()
                    implies #[trigger] self.ticks@[i].index < #[trigger] self.pending@[j] by {
                    assert(self.pending@[j] == old(self).pending@[j + 1]);
                    if i == n {
                        assert(self.ticks@[i].index == old(self).pending@[0]);
                    } else {
                        assert(self.ticks@[i] == old(self).ticks@[i]);
                    }
                }
                assert forall|i: int| 0 <= i < self.ticks@.len()
                    implies (#[trigger] self.ticks@[i]).index < self.next_word as int * 256 * self.tick_spacing as int by {
                    if i == n {
                        assert(self.ticks@[i].index == old(self).pending@[0]);
                    } else {
                        assert(self.ticks@[i] == old(self).ticks@[i]);
                    }
                }
                assert forall|j: int| 0 <= j < self.pending@.len()
                    implies #[trigger] self.pending@[j] < self.next_word as int * 256 * self.tick_spacing as int by {
                    assert(self.pending@[j] == old(self).pending@[j + 1]);
                }
            }
        }
    }

    /// The scan is complete: no tick is pending and no word is left.
    pub open spec fn is_done(&self) -> bool {
        self.pending().len() == 0 && self.next_word() > self.last_word()
    }

    /// The ticks collected.
    pub fn into_ticks(self) -> (ticks: Vec<ProcessedTick>)
        requires
            self.wf(),
        ensures
            ticks@ == self.collected(),
    {
        self.ticks
    }
}

/// For a positive spacing, the ticks of word `word` lie in strictly
/// increasing order from `word * 256 * spacing` up to, not including,
/// `(word + 1) * 256 * spacing`.
proof fn lemma_scan_word_ordered(word: int, bitmap: TickBitmap, tick_spacing: int)
    requires
        tick_spacing > 0,
    ensures
        forall|i: int| 0 <= i < word_ticks(word, bitmap, tick_spacing).len() ==> word * 256 * tick_spacing
            <= #[trigger] word_ticks(word, bitmap, tick_spacing)[i] < (word + 1) * 256 * tick_spacing,
        forall|i: int, j: int| 0 <= i < j < word_ticks(word, bitmap, tick_spacing).len()
            ==> #[trigger] word_ticks(word, bitmap, tick_spacing)[i] < #[trigger] word_ticks(word, bitmap, tick_spacing)[j],
{
    lemma_word_ticks_ordered(word, bitmap, tick_spacing);
    crate::ticks::lemma_set_bits(bitmap, 256);
    let bits = crate::ticks::set_bits(bitmap, 256);
    assert forall|i: int| 0 <= i < word_ticks(word, bitmap, tick_spacing).len() implies word * 256
        * tick_spacing <= #[trigger] word_ticks(word, bitmap, tick_spacing)[i] < (word + 1) * 256
        * tick_spacing by {
        let b = bits[i];
        assert(0 <= b < 256);
        assert(word_ticks(word, bitmap, tick_spacing)[i] == (word * 256 + b) * tick_spacing);
        assert(word * 256 * tick_spacing <= (word * 256 + b) * tick_spacing < (word + 1) * 256
            * tick_spacing) by (nonlinear_arith)
            requires 0 <= b < 256, tick_spacing > 0;
    }
}

/// For a positive spacing, a scan collects its ticks in strictly increasing
/// order, whatever the answers it was given.
pub proof fn lemma_collected_increasing(scan: &TickScan)
    requires
        scan.wf(),
        scan.spacing() > 0,
    ensures
        forall|i: int, j: int| 0 <= i < j < scan.collected().len()
            ==> #[trigger] scan.collected()[i].index < #[trigger] scan.collected()[j].index,
{
}

/// A scan collects every tick of the words it covers: once it is done, it
/// has received one bitmap for each word from the first to the last, and
/// its records hold, in order, the ticks of those words, word by word and in
/// bit order, each with the liquidity answer received for it.
pub proof fn lemma_scan_collects_every_tick(scan: &TickScan)
    requires
        scan.wf(),
        scan.is_done(),
    ensures
        tick_indices(scan.collected()) == scanned_ticks(scan.first_word(), scan.bitmaps(), scan.spacing()),
        scan.answers().len() == scan.collected().len(),
        forall|i: int| 0 <= i < scan.collected().len() ==> #[trigger] scan.collected()[i]
            == processed_tick(tick_indices(scan.collected())[i], scan.answers()[i]),
        scan.first_word() <= scan.last_word() + 1 ==> scan.bitmaps().len() == scan.last_word() + 1
            - scan.first_word(),
        scan.first_word() > scan.last_word() ==> scan.bitmaps().len() == 0,
        forall|i: int| 0 <= i < scan.collected().len() ==> (#[trigger] scan.answers()[i] matches Some((
            gross,
            net,
        )) ==> scan.collected()[i].liquidity_gross == gross && scan.collected()[i].liquidity_net
            == net),
        forall|i: int| 0 <= i < scan.collected().len() ==> (#[trigger] scan.answers()[i] is None
            ==> scan.collected()[i].liquidity_gross == 0 && scan.collected()[i].liquidity_net == 0),
{
    assert(tick_indices(scan.ticks@) + scan.pending() =~= tick_indices(scan.ticks@));
    assert forall|i: int| 0 <= i < scan.collected().len() implies (#[trigger] scan.answers()[i] matches Some((
        gross,
        net,
    )) ==> scan.collected()[i].liquidity_gross == gross && scan.collected()[i].liquidity_net
        == net) by {
        lemma_processed_tick_fields(scan.collected()[i].index as int, scan.answers()[i]);
    }
    assert forall|i: int| 0 <= i < scan.collected().len() implies (#[trigger] scan.answers()[i] is None
        ==> scan.collected()[i].liquidity_gross == 0 && scan.collected()[i].liquidity_net == 0) by {
        lemma_processed_tick_fields(scan.collected()[i].index as int, scan.answers()[i]);
    }
}

/// A tick is recorded with exactly the liquidity of its answer: the gross
/// and net liquidity that the call returned, unchanged, or none at all when
/// the call failed.
pub proof fn lemma_processed_tick_fields(index: int, liquidity: Option<(u128, i128)>)
    ensures
        processed_tick(index, liquidity).index == index as i32,
        liquidity matches Some((gross, net)) ==> processed_tick(index, liquidity).liquidity_gross == gross
            && processed_tick(index, liquidity).liquidity_net == net,
        liquidity is None ==> processed_tick(index, liquidity).liquidity_gross == 0
            && processed_tick(index, liquidity).liquidity_net == 0,
{
}

} // verus!
