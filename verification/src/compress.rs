//! The state of the adaptive range coder.
//!
//! Only the coder's table lives here. Compression itself is a plug-in of the
//! embedding program: the engine never looks inside a compressed payload.

use vstd::prelude::*;

verus! {

/// The range below which the coder shifts a byte out.
pub const ENET_RANGE_CODER_TOP: u32 = 0x100_0000;

/// The range below which the coder gives up precision.
pub const ENET_RANGE_CODER_BOTTOM: u32 = 0x1_0000;

/// What a symbol's count grows by in the root context.
pub const ENET_CONTEXT_SYMBOL_DELTA: u32 = 3;

/// The least count of a symbol in the root context.
pub const ENET_CONTEXT_SYMBOL_MINIMUM: u32 = 1;

/// The least count of the escape in the root context.
pub const ENET_CONTEXT_ESCAPE_MINIMUM: u32 = 1;

/// The number of bytes a subcontext looks back.
pub const ENET_SUBCONTEXT_ORDER: u32 = 2;

/// What a symbol's count grows by in a subcontext.
pub const ENET_SUBCONTEXT_SYMBOL_DELTA: u32 = 2;

/// What the escape's count grows by in a subcontext.
pub const ENET_SUBCONTEXT_ESCAPE_DELTA: u32 = 5;

/// The number of symbol slots a coder owns.
pub const ENET_RANGE_CODER_SYMBOLS: usize = 4096;

/// One node of the coder's symbol tree.
#[derive(Copy, Clone, Debug, PartialEq, Eq, Structural)]
pub struct ENetSymbol {
    pub value: u8,
    pub count: u8,
    pub under: u16,
    pub left: u16,
    pub right: u16,
    pub symbols: u16,
    pub escapes: u16,
    pub total: u16,
    pub parent: u16,
}

/// The symbol every slot starts as: all fields zero.
pub open spec fn spec_symbol_zero() -> ENetSymbol {
    ENetSymbol {
        value: 0,
        count: 0,
        under: 0,
        left: 0,
        right: 0,
        symbols: 0,
        escapes: 0,
        total: 0,
        parent: 0,
    }
}

impl Default for ENetSymbol {
    fn default() -> (s: ENetSymbol)
        ensures
            s == spec_symbol_zero(),
    {
        ENetSymbol {
            value: 0,
            count: 0,
            under: 0,
            left: 0,
            right: 0,
            symbols: 0,
            escapes: 0,
            total: 0,
            parent: 0,
        }
    }
}

/// The model of a range coder: its table of symbols.
pub struct ENetRangeCoder {
    pub symbols: [ENetSymbol; 4096],
}

/// A fresh coder: every slot holds the zero symbol.
pub fn enet_range_coder_create() -> (coder: ENetRangeCoder)
    ensures
        forall|i: int| 0 <= i < 4096 ==> coder.symbols[i] == spec_symbol_zero(),
{
    let zero = ENetSymbol::default();
    ENetRangeCoder { symbols: [zero; 4096] }
}

/// Gives the coder up. Nothing else is held by it.
pub fn enet_range_coder_destroy(_coder: ENetRangeCoder) {
}

} // verus!
