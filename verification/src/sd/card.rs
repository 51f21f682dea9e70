//! A card, and the commands that it is sent.

use vstd::prelude::*;

verus! {

/// The capacity class of a card.
#[derive(Copy, Clone, Debug, PartialEq, Eq)]
pub enum CardCapacity {
    /// SDSC / Standard Capacity (<= 2GB)
    StandardCapacity,
    /// SDHC / High capacity (<= 32GB)
    HighCapacity,
}

/// SD Card
#[derive(Copy, Clone, Debug, PartialEq, Eq)]
pub struct Card {
    /// The type of this card
    pub card_type: CardCapacity,
    /// Operation Conditions Register
    pub ocr: u32,
    /// Relative Card Address
    pub rca: u32,
    /// Card ID
    pub cid: u128,
    /// Card Specific Data
    pub csd: u128,
}

impl Default for Card {
    fn default() -> (card: Card)
        ensures
            card == blank_card(),
    {
        Card { card_type: CardCapacity::StandardCapacity, ocr: 0, rca: 0, cid: 0, csd: 0 }
    }
}

/// A card of which nothing is known yet.
pub open spec fn blank_card() -> Card {
    Card { card_type: CardCapacity::StandardCapacity, ocr: 0, rca: 0, cid: 0, csd: 0 }
}

/// The number of blocks that a CSD register states, by the version of its layout: the
/// register holds the size in units of 512 KiB, or a size and the exponent of its
/// unit. A version that is not known states none.
pub open spec fn blocks_of(csd: u128) -> nat {
    let version = csd / 0x4000_0000_0000_0000_0000_0000_0000_0000;
    if version == 0 {
        let size = csd / 0x4000_0000_0000_0000 % 0x1000;
        let exponent = csd / 0x8000_0000_0000 % 8;
        (size + 1) as nat * vstd::arithmetic::power2::pow2((exponent + 2) as nat)
    } else if version == 1 {
        ((csd / 0x1_0000_0000_0000 % 0x40_0000 + 1) * 1024) as nat
    } else if version == 2 {
        ((csd / 0x1_0000_0000_0000 % 0x1000_0000 + 1) * 1024) as nat
    } else {
        0
    }
}

/// `CSD::<SD>::block_count` of `sdio_host`, for a CSD made from the 128 bits of the
/// register: the number of 512-byte blocks that the register states. Bits 127 and 126
/// are the version of its layout. Version 0 has a size in bits 73 to 62 and the
/// exponent of its unit in bits 49 to 47; version 1 has a size in bits 69 to 48 and
/// version 2 one in bits 75 to 48, both in units of 1024 blocks.
#[verifier::external_body]
pub(crate) fn block_count(csd: u128) -> (blocks: u64)
    ensures
        blocks == blocks_of(csd),
{
    sdio_host::sd::CSD::<sdio_host::sd::SD>::from(csd).block_count()
}

/// `OCR::<SD>::is_busy` of `sdio_host`, for an OCR made from the 32 bits of the
/// register: the card is busy while bit 31 is clear.
#[verifier::external_body]
pub(crate) fn ocr_is_busy(ocr: u32) -> (busy: bool)
    ensures
        busy == (ocr < 0x8000_0000),
{
    sdio_host::sd::OCR::<sdio_host::sd::SD>::from(ocr).is_busy()
}

/// A card holds fewer than 2^40 blocks.
proof fn lemma_blocks_bound(csd: u128)
    ensures
        blocks_of(csd) < 0x100_0000_0000,
{
    let size = csd / 0x4000_0000_0000_0000 % 0x1000;
    let exponent = csd / 0x8000_0000_0000 % 8;
    vstd::arithmetic::power2::lemma2_to64();
    assert(vstd::arithmetic::power2::pow2((exponent + 2) as nat) <= 512);
    assert((size + 1) as nat * vstd::arithmetic::power2::pow2((exponent + 2) as nat) <= 0x1000 * 512) by (nonlinear_arith)
        requires
            size + 1 <= 0x1000,
            vstd::arithmetic::power2::pow2((exponent + 2) as nat) <= 512,
    ;
}

impl Card {
    /// Size in bytes
    pub fn size(&self) -> (bytes: u64)
        ensures
            bytes == blocks_of(self.csd) * 512,
    {
        proof {
            lemma_blocks_bound(self.csd);
        }
        block_count(self.csd) * 512
    }
}

/// A command and its argument.
#[derive(Copy, Clone, Debug, PartialEq, Eq)]
pub struct Command {
    pub index: u8,
    pub arg: u32,
}

/// `cmd` of `sdio_host`: a command of this index with this argument.
#[verifier::external_body]
pub(crate) fn command(index: u8, arg: u32) -> (c: Command)
    ensures
        c == (Command { index, arg }),
{
    let c = sdio_host::common_cmd::cmd::<sdio_host::common_cmd::R1>(index, arg);
    Command { index: c.cmd, arg: c.arg }
}

/// CMD0: put the card in the idle state.
pub open spec fn go_idle() -> Command {
    Command { index: 0, arg: 0 }
}

/// `idle` of `sdio_host`: CMD0 without an argument.
#[verifier::external_body]
pub(crate) fn idle() -> (c: Command)
    ensures
        c == go_idle(),
{
    let c = sdio_host::common_cmd::idle();
    Command { index: c.cmd, arg: c.arg }
}

/// CMD8: tell the card the supply voltage, and ask it to echo a pattern.
pub open spec fn interface_condition(voltage: u8, pattern: u8) -> Command {
    Command { index: 8, arg: (voltage % 0x10 * 0x100 + pattern) as u32 }
}

/// `send_if_cond` of `sdio_host`: CMD8 with the low four bits of the voltage above the
/// eight bits of the pattern.
#[verifier::external_body]
pub(crate) fn send_if_cond(voltage: u8, pattern: u8) -> (c: Command)
    ensures
        c == interface_condition(voltage, pattern),
{
    let c = sdio_host::sd_cmd::send_if_cond(voltage, pattern);
    Command { index: c.cmd, arg: c.arg }
}

/// A flag as a number.
pub open spec fn flag(b: bool) -> int {
    if b {
        1
    } else {
        0
    }
}

/// ACMD41: tell the card what the host supports, and ask it to power up.
pub open spec fn operating_condition(
    high_capacity: bool,
    power_control: bool,
    switch_voltage: bool,
    window: u16,
) -> Command {
    Command {
        index: 41,
        arg: (flag(high_capacity) * 0x4000_0000 + flag(power_control) * 0x1000_0000 + flag(
            switch_voltage,
        ) * 0x100_0000 + window % 0x200 * 0x8000) as u32,
    }
}

/// `sd_send_op_cond` of `sdio_host`: ACMD41 with the three flags in bits 30, 28 and 24
/// and the low nine bits of the voltage window in bits 23 to 15.
#[verifier::external_body]
pub(crate) fn sd_send_op_cond(
    high_capacity: bool,
    power_control: bool,
    switch_voltage: bool,
    window: u16,
) -> (c: Command)
    ensures
        c == operating_condition(high_capacity, power_control, switch_voltage, window),
{
    let c = sdio_host::sd_cmd::sd_send_op_cond(
        high_capacity,
        power_control,
        switch_voltage,
        window,
    );
    Command { index: c.cmd, arg: c.arg }
}

/// A command that is addressed to a card.
pub open spec fn addressed(index: u8, rca: u16) -> Command {
    Command { index, arg: (rca * 0x1_0000) as u32 }
}

/// `send_csd` of `sdio_host`: CMD9, addressed to a card in the high half of its
/// argument.
#[verifier::external_body]
pub(crate) fn send_csd(rca: u16) -> (c: Command)
    ensures
        c == addressed(9, rca),
{
    let c = sdio_host::common_cmd::send_csd(rca);
    Command { index: c.cmd, arg: c.arg }
}

/// `send_cid` of `sdio_host`: CMD10, addressed to a card in the high half of its
/// argument.
#[verifier::external_body]
pub(crate) fn send_cid(rca: u16) -> (c: Command)
    ensures
        c == addressed(10, rca),
{
    let c = sdio_host::common_cmd::send_cid(rca);
    Command { index: c.cmd, arg: c.arg }
}

/// `app_cmd` of `sdio_host`: CMD55, addressed to a card in the high half of its
/// argument.
#[verifier::external_body]
pub(crate) fn app_cmd(rca: u16) -> (c: Command)
    ensures
        c == addressed(55, rca),
{
    let c = sdio_host::common_cmd::app_cmd(rca);
    Command { index: c.cmd, arg: c.arg }
}

/// `stop_transmission` of `sdio_host`: CMD12 without an argument.
#[verifier::external_body]
pub(crate) fn stop_transmission() -> (c: Command)
    ensures
        c == (Command { index: 12, arg: 0 }),
{
    let c = sdio_host::common_cmd::stop_transmission();
    Command { index: c.cmd, arg: c.arg }
}

/// `read_single_block` of `sdio_host`: CMD17 with the address of a block.
#[verifier::external_body]
pub(crate) fn read_single_block(addr: u32) -> (c: Command)
    ensures
        c == (Command { index: 17, arg: addr }),
{
    let c = sdio_host::common_cmd::read_single_block(addr);
    Command { index: c.cmd, arg: c.arg }
}

/// `write_single_block` of `sdio_host`: CMD24 with the address of a block.
#[verifier::external_body]
pub(crate) fn write_single_block(addr: u32) -> (c: Command)
    ensures
        c == (Command { index: 24, arg: addr }),
{
    let c = sdio_host::common_cmd::write_single_block(addr);
    Command { index: c.cmd, arg: c.arg }
}

/// Nothing is known of a card before it is brought up.
pub proof fn law_a_blank_card_is_blank()
    ensures
        blank_card() == (Card {
            card_type: CardCapacity::StandardCapacity,
            ocr: 0,
            rca: 0,
            cid: 0,
            csd: 0,
        }),
{
}

/// The fields of a number.
proof fn lemma_field(n: int, unit: int, above: int, high: int, field: int, low: int)
    requires
        n == (high * above + field) * unit + low,
        0 <= low < unit,
        0 <= field < above,
        0 <= high,
    ensures
        n / unit % above == field,
        n / unit == high * above + field,
{
    vstd::arithmetic::div_mod::lemma_fundamental_div_mod_converse(
        n,
        unit,
        high * above + field,
        low,
    );
    vstd::arithmetic::div_mod::lemma_fundamental_div_mod_converse(
        high * above + field,
        above,
        high,
        field,
    );
}

/// The size of a card is where the layout of its register puts it, whatever the other bits are:
/// in the two later layouts it is a size in units of 512 KiB, of 22 bits in the one and of 28
/// in the other. A layout that is not known has none.
pub proof fn law_the_size_is_a_field_of_the_register(csd: u128, high: int, size: int, low: int)
    requires
        0 <= high,
        0 <= size,
        0 <= low < 0x1_0000_0000_0000,
    ensures
        size < 0x40_0000 && high < 0x100_0000_0000_0000 && csd == ((0x100_0000_0000_0000 + high)
            * 0x40_0000 + size) * 0x1_0000_0000_0000 + low ==> blocks_of(csd) == (size + 1) * 1024,
        size < 0x1000_0000 && high < 0x4_0000_0000_0000 && csd == ((0x8_0000_0000_0000 + high)
            * 0x1000_0000 + size) * 0x1_0000_0000_0000 + low ==> blocks_of(csd) == (size + 1)
            * 1024,
        csd >= 0xC000_0000_0000_0000_0000_0000_0000_0000 ==> blocks_of(csd) == 0,
{
    let n = csd as int;
    let unit = 0x1_0000_0000_0000int;
    if size < 0x40_0000 && high < 0x100_0000_0000_0000 && n == ((0x100_0000_0000_0000 + high)
        * 0x40_0000 + size) * unit + low {
        lemma_field(n, unit, 0x40_0000, 0x100_0000_0000_0000 + high, size, low);
        assert(n / 0x4000_0000_0000_0000_0000_0000_0000_0000 == 1);
    }
    if size < 0x1000_0000 && high < 0x4_0000_0000_0000 && n == ((0x8_0000_0000_0000 + high)
        * 0x1000_0000 + size) * unit + low {
        lemma_field(n, unit, 0x1000_0000, 0x8_0000_0000_0000 + high, size, low);
        assert(n / 0x4000_0000_0000_0000_0000_0000_0000_0000 == 2);
    }
}

/// The size of a card of the first layout is a size of 12 bits, in units whose exponent is
/// another field of the register.
pub proof fn law_the_size_of_an_early_card(
    csd: u128,
    high: int,
    size: int,
    middle: int,
    exponent: int,
    low: int,
)
    requires
        0 <= high < 0x10_0000_0000_0000,
        0 <= size < 0x1000,
        0 <= middle < 0x1000,
        0 <= exponent < 8,
        0 <= low < 0x8000_0000_0000,
        csd == (((high * 0x1000 + size) * 0x1000 + middle) * 8 + exponent) * 0x8000_0000_0000 + low,
    ensures
        blocks_of(csd) == (size + 1) * vstd::arithmetic::power2::pow2((exponent + 2) as nat),
{
    let n = csd as int;
    lemma_field(
        n,
        0x8000_0000_0000,
        8,
        (high * 0x1000 + size) * 0x1000 + middle,
        exponent,
        low,
    );
    let rest = (middle * 8 + exponent) * 0x8000_0000_0000 + low;
    assert(0x1000 * 8 * 0x8000_0000_0000 == 0x4000_0000_0000_0000int);
    assert(n == (high * 0x1000 + size) * 0x4000_0000_0000_0000 + rest);
    lemma_field(n, 0x4000_0000_0000_0000, 0x1000, high, size, rest);
    assert(n / 0x4000_0000_0000_0000_0000_0000_0000_0000 == 0);
}

} // verus!
