//! Column bookkeeping for the circuits that consume the commitment layer.
//!
//! These enums only name positions: the gadget selectors, the generic
//! column kinds, and the indexer mapping the foreign-field-addition witness
//! columns onto the concrete `X` columns.

use vstd::prelude::*;

verus! {

/// The gadgets a circuit row can enable. The selectors are fixed at setup
/// time, take only the values 0 or 1, and are public.
#[derive(Debug, Clone, Copy, PartialEq, Eq, Structural)]
pub enum Gadget {
    App,
    /// The permutation argument.
    PermutationArgument,
    /// Decomposes a 255-bit scalar into 16 chunks of 16 bits.
    SixteenBitsDecomposition,
    /// Decomposes a 16-bit chunk into individual bits.
    BitDecompositionFrom16Bits,
    /// Decomposes a 255-bit value into bits over 17 rows and 17 columns.
    BitDecomposition,
    EllipticCurveAddition,
    EllipticCurveScaling,
    /// The Poseidon hash instance that stays within one row.
    Poseidon,
    /// The Poseidon hash instance that also uses the next row, computing one
    /// additional round per row.
    PoseidonNextRow,
}

/// A column of the circuit: a gadget selector, a public input, or a witness
/// column.
#[derive(Debug, Clone, Copy, PartialEq, Eq, Structural)]
pub enum Column {
    Selector(Gadget),
    PublicInput(usize),
    X(usize),
}

/// The number of limbs a foreign-field element is split into.
pub const N_LIMBS: usize = 17;

/// Number of columns in the foreign-field-addition circuits.
pub const FFA_N_COLUMNS: usize = 5 * N_LIMBS;

/// Number of public columns in the foreign-field-addition circuits.
pub const FFA_NPUB_COLUMNS: usize = N_LIMBS;

/// Column indexer for the foreign-field-addition circuit. The columns
/// represent the equation
/// `InputA(i) + InputB(i) = ModulusF(i) * Quotient + Carry(i) * 2^LIMB_SIZE - Carry(i-1)`.
#[derive(Debug, Clone, Copy, PartialEq, Eq, Structural)]
pub enum FFAColumn {
    InputA(usize),
    InputB(usize),
    ModulusF(usize),
    Remainder(usize),
    Carry(usize),
    Quotient,
}

/// Whether a foreign-field-addition column's limb index is in range: limb
/// indices run below `N_LIMBS`, carries one short of that.
pub open spec fn ffa_column_ok(c: FFAColumn) -> bool {
    match c {
        FFAColumn::InputA(i) => i < N_LIMBS,
        FFAColumn::InputB(i) => i < N_LIMBS,
        FFAColumn::ModulusF(i) => i < N_LIMBS,
        FFAColumn::Remainder(i) => i < N_LIMBS,
        FFAColumn::Carry(i) => i < N_LIMBS - 1,
        FFAColumn::Quotient => true,
    }
}

/// The position of a foreign-field-addition column in the `X` column
/// layout: the five groups sit one after the other, and the quotient takes
/// the last slot of the carry group.
pub open spec fn ffa_column_index(c: FFAColumn) -> int {
    match c {
        FFAColumn::InputA(i) => i as int,
        FFAColumn::InputB(i) => N_LIMBS as int + i as int,
        FFAColumn::ModulusF(i) => 2 * (N_LIMBS as int) + i as int,
        FFAColumn::Remainder(i) => 3 * (N_LIMBS as int) + i as int,
        FFAColumn::Carry(i) => 4 * (N_LIMBS as int) + i as int,
        FFAColumn::Quotient => 5 * (N_LIMBS as int) - 1,
    }
}

impl FFAColumn {
    /// Maps the column to its witness `X` column. A limb index out of range
    /// is a caller bug and is excluded by contract.
    pub fn to_column(self) -> (r: Column)
        requires
            ffa_column_ok(self),
        ensures
            r == Column::X(ffa_column_index(self) as usize),
    {
        match self {
            FFAColumn::InputA(i) => Column::X(i),
            FFAColumn::InputB(i) => Column::X(N_LIMBS + i),
            FFAColumn::ModulusF(i) => Column::X(2 * N_LIMBS + i),
            FFAColumn::Remainder(i) => Column::X(3 * N_LIMBS + i),
            FFAColumn::Carry(i) => Column::X(4 * N_LIMBS + i),
            FFAColumn::Quotient => Column::X(5 * N_LIMBS - 1),
        }
    }
}

} // verus!
