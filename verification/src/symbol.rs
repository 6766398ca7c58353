//! The symbol alphabet of postfix expressions.
//!
//! Every symbol is written as one byte in postfix text, has a stack effect
//! (its "seft"), a complexity weight and a display name.

use vstd::prelude::*;
use crate::text::chars_to_string;

verus! {

/// Stack effect of a symbol: how many operands it pops before pushing one value.
#[derive(Clone, Copy, PartialEq, Eq, Structural, Debug, Hash)]
pub enum Seft {
    /// Pushes a value (constant or variable).
    A,
    /// Pops one value and pushes one (function of one argument).
    B,
    /// Pops two values and pushes one (function of two arguments).
    C,
}

/// Classes of real numbers, from the most general to the most restricted.
#[derive(Clone, Copy, PartialEq, Eq, Structural, Debug, Hash)]
pub enum NumType {
    /// Any real number.
    Transcendental,
    /// Numbers reachable with exponentials and logarithms.
    Liouvillian,
    /// Roots of integer polynomials.
    Algebraic,
    /// Numbers constructible with straightedge and compass.
    Constructible,
    /// Ratios of integers.
    Rational,
    /// Integers.
    Integer,
}

impl NumType {
    /// Position in the order of classes; a higher rank is a more restricted class.
    pub open spec fn rank_of(self) -> int {
        match self {
            NumType::Transcendental => 0,
            NumType::Liouvillian => 1,
            NumType::Algebraic => 2,
            NumType::Constructible => 3,
            NumType::Rational => 4,
            NumType::Integer => 5,
        }
    }

    /// The rank of this class.
    pub fn rank(self) -> (r: u8)
        ensures
            r == self.rank_of(),
    {
        match self {
            NumType::Transcendental => 0,
            NumType::Liouvillian => 1,
            NumType::Algebraic => 2,
            NumType::Constructible => 3,
            NumType::Rational => 4,
            NumType::Integer => 5,
        }
    }

    /// Whether this class is at least as restricted as `other`.
    pub fn at_least(self, other: NumType) -> (r: bool)
        ensures
            r == (self.rank_of() >= other.rank_of()),
    {
        self.rank() >= other.rank()
    }

    /// The class of a value built from two operands of these classes with `+`, `-` or `*`.
    pub open spec fn combined(self, other: NumType) -> NumType {
        if self.rank_of() <= other.rank_of() {
            self
        } else {
            other
        }
    }

    /// Combine two classes: the result is the more general of the two.
    pub fn combine(self, other: NumType) -> (r: NumType)
        ensures
            r == self.combined(other),
    {
        if self.rank() <= other.rank() {
            self
        } else {
            other
        }
    }
}

/// One symbol of a postfix expression.
#[derive(Clone, Copy, PartialEq, Eq, Structural, Debug, Hash)]
pub enum Symbol {
    One,
    Two,
    Three,
    Four,
    Five,
    Six,
    Seven,
    Eight,
    Nine,
    Pi,
    E,
    Phi,
    Gamma,
    Plastic,
    Apery,
    Catalan,
    X,
    UserConstant0,
    UserConstant1,
    UserConstant2,
    UserConstant3,
    UserConstant4,
    UserConstant5,
    UserConstant6,
    UserConstant7,
    UserConstant8,
    UserConstant9,
    UserConstant10,
    UserConstant11,
    UserConstant12,
    UserConstant13,
    UserConstant14,
    UserConstant15,
    Neg,
    Recip,
    Sqrt,
    Square,
    Ln,
    Exp,
    SinPi,
    CosPi,
    TanPi,
    LambertW,
    UserFunction0,
    UserFunction1,
    UserFunction2,
    UserFunction3,
    UserFunction4,
    UserFunction5,
    UserFunction6,
    UserFunction7,
    UserFunction8,
    UserFunction9,
    UserFunction10,
    UserFunction11,
    UserFunction12,
    UserFunction13,
    UserFunction14,
    UserFunction15,
    Add,
    Sub,
    Mul,
    Div,
    Pow,
    Root,
    Log,
    Atan2,
}

/// Number of user-defined constant slots (and of user-defined function slots).
pub const USER_SLOTS: u8 = 16;

impl Symbol {
    /// The byte that stands for this symbol in postfix text.
    pub open spec fn byte_of(self) -> u8 {
        match self {
            Symbol::One => 49u8,
            Symbol::Two => 50u8,
            Symbol::Three => 51u8,
            Symbol::Four => 52u8,
            Symbol::Five => 53u8,
            Symbol::Six => 54u8,
            Symbol::Seven => 55u8,
            Symbol::Eight => 56u8,
            Symbol::Nine => 57u8,
            Symbol::Pi => 112u8,
            Symbol::E => 101u8,
            Symbol::Phi => 102u8,
            Symbol::Gamma => 103u8,
            Symbol::Plastic => 80u8,
            Symbol::Apery => 122u8,
            Symbol::Catalan => 71u8,
            Symbol::X => 120u8,
            Symbol::UserConstant0 => 128u8,
            Symbol::UserConstant1 => 129u8,
            Symbol::UserConstant2 => 130u8,
            Symbol::UserConstant3 => 131u8,
            Symbol::UserConstant4 => 132u8,
            Symbol::UserConstant5 => 133u8,
            Symbol::UserConstant6 => 134u8,
            Symbol::UserConstant7 => 135u8,
            Symbol::UserConstant8 => 136u8,
            Symbol::UserConstant9 => 137u8,
            Symbol::UserConstant10 => 138u8,
            Symbol::UserConstant11 => 139u8,
            Symbol::UserConstant12 => 140u8,
            Symbol::UserConstant13 => 141u8,
            Symbol::UserConstant14 => 142u8,
            Symbol::UserConstant15 => 143u8,
            Symbol::Neg => 110u8,
            Symbol::Recip => 114u8,
            Symbol::Sqrt => 113u8,
            Symbol::Square => 115u8,
            Symbol::Ln => 108u8,
            Symbol::Exp => 69u8,
            Symbol::SinPi => 83u8,
            Symbol::CosPi => 67u8,
            Symbol::TanPi => 84u8,
            Symbol::LambertW => 87u8,
            Symbol::UserFunction0 => 70u8,
            Symbol::UserFunction1 => 72u8,
            Symbol::UserFunction2 => 73u8,
            Symbol::UserFunction3 => 74u8,
            Symbol::UserFunction4 => 75u8,
            Symbol::UserFunction5 => 77u8,
            Symbol::UserFunction6 => 78u8,
            Symbol::UserFunction7 => 79u8,
            Symbol::UserFunction8 => 81u8,
            Symbol::UserFunction9 => 82u8,
            Symbol::UserFunction10 => 85u8,
            Symbol::UserFunction11 => 86u8,
            Symbol::UserFunction12 => 89u8,
            Symbol::UserFunction13 => 90u8,
            Symbol::UserFunction14 => 66u8,
            Symbol::UserFunction15 => 68u8,
            Symbol::Add => 43u8,
            Symbol::Sub => 45u8,
            Symbol::Mul => 42u8,
            Symbol::Div => 47u8,
            Symbol::Pow => 94u8,
            Symbol::Root => 118u8,
            Symbol::Log => 76u8,
            Symbol::Atan2 => 65u8,
        }
    }

    /// The byte that stands for this symbol in postfix text.
    pub fn to_byte(self) -> (b: u8)
        ensures
            b == self.byte_of(),
    {
        match self {
            Symbol::One => 49u8,
            Symbol::Two => 50u8,
            Symbol::Three => 51u8,
            Symbol::Four => 52u8,
            Symbol::Five => 53u8,
            Symbol::Six => 54u8,
            Symbol::Seven => 55u8,
            Symbol::Eight => 56u8,
            Symbol::Nine => 57u8,
            Symbol::Pi => 112u8,
            Symbol::E => 101u8,
            Symbol::Phi => 102u8,
            Symbol::Gamma => 103u8,
            Symbol::Plastic => 80u8,
            Symbol::Apery => 122u8,
            Symbol::Catalan => 71u8,
            Symbol::X => 120u8,
            Symbol::UserConstant0 => 128u8,
            Symbol::UserConstant1 => 129u8,
            Symbol::UserConstant2 => 130u8,
            Symbol::UserConstant3 => 131u8,
            Symbol::UserConstant4 => 132u8,
            Symbol::UserConstant5 => 133u8,
            Symbol::UserConstant6 => 134u8,
            Symbol::UserConstant7 => 135u8,
            Symbol::UserConstant8 => 136u8,
            Symbol::UserConstant9 => 137u8,
            Symbol::UserConstant10 => 138u8,
            Symbol::UserConstant11 => 139u8,
            Symbol::UserConstant12 => 140u8,
            Symbol::UserConstant13 => 141u8,
            Symbol::UserConstant14 => 142u8,
            Symbol::UserConstant15 => 143u8,
            Symbol::Neg => 110u8,
            Symbol::Recip => 114u8,
            Symbol::Sqrt => 113u8,
            Symbol::Square => 115u8,
            Symbol::Ln => 108u8,
            Symbol::Exp => 69u8,
            Symbol::SinPi => 83u8,
            Symbol::CosPi => 67u8,
            Symbol::TanPi => 84u8,
            Symbol::LambertW => 87u8,
            Symbol::UserFunction0 => 70u8,
            Symbol::UserFunction1 => 72u8,
            Symbol::UserFunction2 => 73u8,
            Symbol::UserFunction3 => 74u8,
            Symbol::UserFunction4 => 75u8,
            Symbol::UserFunction5 => 77u8,
            Symbol::UserFunction6 => 78u8,
            Symbol::UserFunction7 => 79u8,
            Symbol::UserFunction8 => 81u8,
            Symbol::UserFunction9 => 82u8,
            Symbol::UserFunction10 => 85u8,
            Symbol::UserFunction11 => 86u8,
            Symbol::UserFunction12 => 89u8,
            Symbol::UserFunction13 => 90u8,
            Symbol::UserFunction14 => 66u8,
            Symbol::UserFunction15 => 68u8,
            Symbol::Add => 43u8,
            Symbol::Sub => 45u8,
            Symbol::Mul => 42u8,
            Symbol::Div => 47u8,
            Symbol::Pow => 94u8,
            Symbol::Root => 118u8,
            Symbol::Log => 76u8,
            Symbol::Atan2 => 65u8,
        }
    }

    /// The symbol written with byte `b`, if any.
    pub open spec fn symbol_of_byte(b: u8) -> Option<Symbol> {
        match b {
            49u8 => Some(Symbol::One),
            50u8 => Some(Symbol::Two),
            51u8 => Some(Symbol::Three),
            52u8 => Some(Symbol::Four),
            53u8 => Some(Symbol::Five),
            54u8 => Some(Symbol::Six),
            55u8 => Some(Symbol::Seven),
            56u8 => Some(Symbol::Eight),
            57u8 => Some(Symbol::Nine),
            112u8 => Some(Symbol::Pi),
            101u8 => Some(Symbol::E),
            102u8 => Some(Symbol::Phi),
            103u8 => Some(Symbol::Gamma),
            80u8 => Some(Symbol::Plastic),
            122u8 => Some(Symbol::Apery),
            71u8 => Some(Symbol::Catalan),
            120u8 => Some(Symbol::X),
            128u8 => Some(Symbol::UserConstant0),
            129u8 => Some(Symbol::UserConstant1),
            130u8 => Some(Symbol::UserConstant2),
            131u8 => Some(Symbol::UserConstant3),
            132u8 => Some(Symbol::UserConstant4),
            133u8 => Some(Symbol::UserConstant5),
            134u8 => Some(Symbol::UserConstant6),
            135u8 => Some(Symbol::UserConstant7),
            136u8 => Some(Symbol::UserConstant8),
            137u8 => Some(Symbol::UserConstant9),
            138u8 => Some(Symbol::UserConstant10),
            139u8 => Some(Symbol::UserConstant11),
            140u8 => Some(Symbol::UserConstant12),
            141u8 => Some(Symbol::UserConstant13),
            142u8 => Some(Symbol::UserConstant14),
            143u8 => Some(Symbol::UserConstant15),
            110u8 => Some(Symbol::Neg),
            114u8 => Some(Symbol::Recip),
            113u8 => Some(Symbol::Sqrt),
            115u8 => Some(Symbol::Square),
            108u8 => Some(Symbol::Ln),
            69u8 => Some(Symbol::Exp),
            83u8 => Some(Symbol::SinPi),
            67u8 => Some(Symbol::CosPi),
            84u8 => Some(Symbol::TanPi),
            87u8 => Some(Symbol::LambertW),
            70u8 => Some(Symbol::UserFunction0),
            72u8 => Some(Symbol::UserFunction1),
            73u8 => Some(Symbol::UserFunction2),
            74u8 => Some(Symbol::UserFunction3),
            75u8 => Some(Symbol::UserFunction4),
            77u8 => Some(Symbol::UserFunction5),
            78u8 => Some(Symbol::UserFunction6),
            79u8 => Some(Symbol::UserFunction7),
            81u8 => Some(Symbol::UserFunction8),
            82u8 => Some(Symbol::UserFunction9),
            85u8 => Some(Symbol::UserFunction10),
            86u8 => Some(Symbol::UserFunction11),
            89u8 => Some(Symbol::UserFunction12),
            90u8 => Some(Symbol::UserFunction13),
            66u8 => Some(Symbol::UserFunction14),
            68u8 => Some(Symbol::UserFunction15),
            43u8 => Some(Symbol::Add),
            45u8 => Some(Symbol::Sub),
            42u8 => Some(Symbol::Mul),
            47u8 => Some(Symbol::Div),
            94u8 => Some(Symbol::Pow),
            118u8 => Some(Symbol::Root),
            76u8 => Some(Symbol::Log),
            65u8 => Some(Symbol::Atan2),
            _ => None,
        }
    }

    /// Decode one byte of postfix text.
    pub fn from_byte(b: u8) -> (r: Option<Symbol>)
        ensures
            r == Symbol::symbol_of_byte(b),
    {
        match b {
            49u8 => Some(Symbol::One),
            50u8 => Some(Symbol::Two),
            51u8 => Some(Symbol::Three),
            52u8 => Some(Symbol::Four),
            53u8 => Some(Symbol::Five),
            54u8 => Some(Symbol::Six),
            55u8 => Some(Symbol::Seven),
            56u8 => Some(Symbol::Eight),
            57u8 => Some(Symbol::Nine),
            112u8 => Some(Symbol::Pi),
            101u8 => Some(Symbol::E),
            102u8 => Some(Symbol::Phi),
            103u8 => Some(Symbol::Gamma),
            80u8 => Some(Symbol::Plastic),
            122u8 => Some(Symbol::Apery),
            71u8 => Some(Symbol::Catalan),
            120u8 => Some(Symbol::X),
            128u8 => Some(Symbol::UserConstant0),
            129u8 => Some(Symbol::UserConstant1),
            130u8 => Some(Symbol::UserConstant2),
            131u8 => Some(Symbol::UserConstant3),
            132u8 => Some(Symbol::UserConstant4),
            133u8 => Some(Symbol::UserConstant5),
            134u8 => Some(Symbol::UserConstant6),
            135u8 => Some(Symbol::UserConstant7),
            136u8 => Some(Symbol::UserConstant8),
            137u8 => Some(Symbol::UserConstant9),
            138u8 => Some(Symbol::UserConstant10),
            139u8 => Some(Symbol::UserConstant11),
            140u8 => Some(Symbol::UserConstant12),
            141u8 => Some(Symbol::UserConstant13),
            142u8 => Some(Symbol::UserConstant14),
            143u8 => Some(Symbol::UserConstant15),
            110u8 => Some(Symbol::Neg),
            114u8 => Some(Symbol::Recip),
            113u8 => Some(Symbol::Sqrt),
            115u8 => Some(Symbol::Square),
            108u8 => Some(Symbol::Ln),
            69u8 => Some(Symbol::Exp),
            83u8 => Some(Symbol::SinPi),
            67u8 => Some(Symbol::CosPi),
            84u8 => Some(Symbol::TanPi),
            87u8 => Some(Symbol::LambertW),
            70u8 => Some(Symbol::UserFunction0),
            72u8 => Some(Symbol::UserFunction1),
            73u8 => Some(Symbol::UserFunction2),
            74u8 => Some(Symbol::UserFunction3),
            75u8 => Some(Symbol::UserFunction4),
            77u8 => Some(Symbol::UserFunction5),
            78u8 => Some(Symbol::UserFunction6),
            79u8 => Some(Symbol::UserFunction7),
            81u8 => Some(Symbol::UserFunction8),
            82u8 => Some(Symbol::UserFunction9),
            85u8 => Some(Symbol::UserFunction10),
            86u8 => Some(Symbol::UserFunction11),
            89u8 => Some(Symbol::UserFunction12),
            90u8 => Some(Symbol::UserFunction13),
            66u8 => Some(Symbol::UserFunction14),
            68u8 => Some(Symbol::UserFunction15),
            43u8 => Some(Symbol::Add),
            45u8 => Some(Symbol::Sub),
            42u8 => Some(Symbol::Mul),
            47u8 => Some(Symbol::Div),
            94u8 => Some(Symbol::Pow),
            118u8 => Some(Symbol::Root),
            76u8 => Some(Symbol::Log),
            65u8 => Some(Symbol::Atan2),
            _ => None,
        }
    }

    /// Stack effect of the symbol.
    pub open spec fn seft_of(self) -> Seft {
        match self {
            Symbol::One | Symbol::Two | Symbol::Three | Symbol::Four | Symbol::Five | Symbol::Six | Symbol::Seven | Symbol::Eight | Symbol::Nine | Symbol::Pi | Symbol::E | Symbol::Phi | Symbol::Gamma | Symbol::Plastic | Symbol::Apery | Symbol::Catalan | Symbol::X | Symbol::UserConstant0 | Symbol::UserConstant1 | Symbol::UserConstant2 | Symbol::UserConstant3 | Symbol::UserConstant4 | Symbol::UserConstant5 | Symbol::UserConstant6 | Symbol::UserConstant7 | Symbol::UserConstant8 | Symbol::UserConstant9 | Symbol::UserConstant10 | Symbol::UserConstant11 | Symbol::UserConstant12 | Symbol::UserConstant13 | Symbol::UserConstant14 | Symbol::UserConstant15 => Seft::A,
            Symbol::Neg | Symbol::Recip | Symbol::Sqrt | Symbol::Square | Symbol::Ln | Symbol::Exp | Symbol::SinPi | Symbol::CosPi | Symbol::TanPi | Symbol::LambertW | Symbol::UserFunction0 | Symbol::UserFunction1 | Symbol::UserFunction2 | Symbol::UserFunction3 | Symbol::UserFunction4 | Symbol::UserFunction5 | Symbol::UserFunction6 | Symbol::UserFunction7 | Symbol::UserFunction8 | Symbol::UserFunction9 | Symbol::UserFunction10 | Symbol::UserFunction11 | Symbol::UserFunction12 | Symbol::UserFunction13 | Symbol::UserFunction14 | Symbol::UserFunction15 => Seft::B,
            Symbol::Add | Symbol::Sub | Symbol::Mul | Symbol::Div | Symbol::Pow | Symbol::Root | Symbol::Log | Symbol::Atan2 => Seft::C,
        }
    }

    /// Stack effect of the symbol.
    pub fn seft(self) -> (r: Seft)
        ensures
            r == self.seft_of(),
    {
        match self {
            Symbol::One | Symbol::Two | Symbol::Three | Symbol::Four | Symbol::Five | Symbol::Six | Symbol::Seven | Symbol::Eight | Symbol::Nine | Symbol::Pi | Symbol::E | Symbol::Phi | Symbol::Gamma | Symbol::Plastic | Symbol::Apery | Symbol::Catalan | Symbol::X | Symbol::UserConstant0 | Symbol::UserConstant1 | Symbol::UserConstant2 | Symbol::UserConstant3 | Symbol::UserConstant4 | Symbol::UserConstant5 | Symbol::UserConstant6 | Symbol::UserConstant7 | Symbol::UserConstant8 | Symbol::UserConstant9 | Symbol::UserConstant10 | Symbol::UserConstant11 | Symbol::UserConstant12 | Symbol::UserConstant13 | Symbol::UserConstant14 | Symbol::UserConstant15 => Seft::A,
            Symbol::Neg | Symbol::Recip | Symbol::Sqrt | Symbol::Square | Symbol::Ln | Symbol::Exp | Symbol::SinPi | Symbol::CosPi | Symbol::TanPi | Symbol::LambertW | Symbol::UserFunction0 | Symbol::UserFunction1 | Symbol::UserFunction2 | Symbol::UserFunction3 | Symbol::UserFunction4 | Symbol::UserFunction5 | Symbol::UserFunction6 | Symbol::UserFunction7 | Symbol::UserFunction8 | Symbol::UserFunction9 | Symbol::UserFunction10 | Symbol::UserFunction11 | Symbol::UserFunction12 | Symbol::UserFunction13 | Symbol::UserFunction14 | Symbol::UserFunction15 => Seft::B,
            Symbol::Add | Symbol::Sub | Symbol::Mul | Symbol::Div | Symbol::Pow | Symbol::Root | Symbol::Log | Symbol::Atan2 => Seft::C,
        }
    }

    /// Default complexity weight of the symbol.
    pub open spec fn weight_of(self) -> u32 {
        match self {
            Symbol::One => 10,
            Symbol::Two => 13,
            Symbol::Three => 15,
            Symbol::Four => 16,
            Symbol::Five => 17,
            Symbol::Six => 18,
            Symbol::Seven => 18,
            Symbol::Eight => 19,
            Symbol::Nine => 19,
            Symbol::Pi => 14,
            Symbol::E => 16,
            Symbol::Phi => 18,
            Symbol::Gamma => 20,
            Symbol::Plastic => 20,
            Symbol::Apery => 22,
            Symbol::Catalan => 20,
            Symbol::X => 15,
            Symbol::UserConstant0 => 16,
            Symbol::UserConstant1 => 16,
            Symbol::UserConstant2 => 16,
            Symbol::UserConstant3 => 16,
            Symbol::UserConstant4 => 16,
            Symbol::UserConstant5 => 16,
            Symbol::UserConstant6 => 16,
            Symbol::UserConstant7 => 16,
            Symbol::UserConstant8 => 16,
            Symbol::UserConstant9 => 16,
            Symbol::UserConstant10 => 16,
            Symbol::UserConstant11 => 16,
            Symbol::UserConstant12 => 16,
            Symbol::UserConstant13 => 16,
            Symbol::UserConstant14 => 16,
            Symbol::UserConstant15 => 16,
            Symbol::Neg => 7,
            Symbol::Recip => 7,
            Symbol::Sqrt => 9,
            Symbol::Square => 9,
            Symbol::Ln => 13,
            Symbol::Exp => 13,
            Symbol::SinPi => 13,
            Symbol::CosPi => 13,
            Symbol::TanPi => 16,
            Symbol::LambertW => 16,
            Symbol::UserFunction0 => 16,
            Symbol::UserFunction1 => 16,
            Symbol::UserFunction2 => 16,
            Symbol::UserFunction3 => 16,
            Symbol::UserFunction4 => 16,
            Symbol::UserFunction5 => 16,
            Symbol::UserFunction6 => 16,
            Symbol::UserFunction7 => 16,
            Symbol::UserFunction8 => 16,
            Symbol::UserFunction9 => 16,
            Symbol::UserFunction10 => 16,
            Symbol::UserFunction11 => 16,
            Symbol::UserFunction12 => 16,
            Symbol::UserFunction13 => 16,
            Symbol::UserFunction14 => 16,
            Symbol::UserFunction15 => 16,
            Symbol::Add => 4,
            Symbol::Sub => 5,
            Symbol::Mul => 4,
            Symbol::Div => 5,
            Symbol::Pow => 6,
            Symbol::Root => 7,
            Symbol::Log => 9,
            Symbol::Atan2 => 8,
        }
    }

    /// Default complexity weight of the symbol.
    pub fn weight(self) -> (w: u32)
        ensures
            w == self.weight_of(),
    {
        match self {
            Symbol::One => 10,
            Symbol::Two => 13,
            Symbol::Three => 15,
            Symbol::Four => 16,
            Symbol::Five => 17,
            Symbol::Six => 18,
            Symbol::Seven => 18,
            Symbol::Eight => 19,
            Symbol::Nine => 19,
            Symbol::Pi => 14,
            Symbol::E => 16,
            Symbol::Phi => 18,
            Symbol::Gamma => 20,
            Symbol::Plastic => 20,
            Symbol::Apery => 22,
            Symbol::Catalan => 20,
            Symbol::X => 15,
            Symbol::UserConstant0 => 16,
            Symbol::UserConstant1 => 16,
            Symbol::UserConstant2 => 16,
            Symbol::UserConstant3 => 16,
            Symbol::UserConstant4 => 16,
            Symbol::UserConstant5 => 16,
            Symbol::UserConstant6 => 16,
            Symbol::UserConstant7 => 16,
            Symbol::UserConstant8 => 16,
            Symbol::UserConstant9 => 16,
            Symbol::UserConstant10 => 16,
            Symbol::UserConstant11 => 16,
            Symbol::UserConstant12 => 16,
            Symbol::UserConstant13 => 16,
            Symbol::UserConstant14 => 16,
            Symbol::UserConstant15 => 16,
            Symbol::Neg => 7,
            Symbol::Recip => 7,
            Symbol::Sqrt => 9,
            Symbol::Square => 9,
            Symbol::Ln => 13,
            Symbol::Exp => 13,
            Symbol::SinPi => 13,
            Symbol::CosPi => 13,
            Symbol::TanPi => 16,
            Symbol::LambertW => 16,
            Symbol::UserFunction0 => 16,
            Symbol::UserFunction1 => 16,
            Symbol::UserFunction2 => 16,
            Symbol::UserFunction3 => 16,
            Symbol::UserFunction4 => 16,
            Symbol::UserFunction5 => 16,
            Symbol::UserFunction6 => 16,
            Symbol::UserFunction7 => 16,
            Symbol::UserFunction8 => 16,
            Symbol::UserFunction9 => 16,
            Symbol::UserFunction10 => 16,
            Symbol::UserFunction11 => 16,
            Symbol::UserFunction12 => 16,
            Symbol::UserFunction13 => 16,
            Symbol::UserFunction14 => 16,
            Symbol::UserFunction15 => 16,
            Symbol::Add => 4,
            Symbol::Sub => 5,
            Symbol::Mul => 4,
            Symbol::Div => 5,
            Symbol::Pow => 6,
            Symbol::Root => 7,
            Symbol::Log => 9,
            Symbol::Atan2 => 8,
        }
    }

    /// Display name of the symbol, as a sequence of characters.
    pub open spec fn name_of(self) -> Seq<char> {
        match self {
            Symbol::One => seq!['1'],
            Symbol::Two => seq!['2'],
            Symbol::Three => seq!['3'],
            Symbol::Four => seq!['4'],
            Symbol::Five => seq!['5'],
            Symbol::Six => seq!['6'],
            Symbol::Seven => seq!['7'],
            Symbol::Eight => seq!['8'],
            Symbol::Nine => seq!['9'],
            Symbol::Pi => seq!['p', 'i'],
            Symbol::E => seq!['e'],
            Symbol::Phi => seq!['p', 'h', 'i'],
            Symbol::Gamma => seq!['g', 'a', 'm', 'm', 'a'],
            Symbol::Plastic => seq!['p', 'l', 'a', 's', 't', 'i', 'c'],
            Symbol::Apery => seq!['z', 'e', 't', 'a', '3'],
            Symbol::Catalan => seq!['G'],
            Symbol::X => seq!['x'],
            Symbol::UserConstant0 => seq!['u', '0'],
            Symbol::UserConstant1 => seq!['u', '1'],
            Symbol::UserConstant2 => seq!['u', '2'],
            Symbol::UserConstant3 => seq!['u', '3'],
            Symbol::UserConstant4 => seq!['u', '4'],
            Symbol::UserConstant5 => seq!['u', '5'],
            Symbol::UserConstant6 => seq!['u', '6'],
            Symbol::UserConstant7 => seq!['u', '7'],
            Symbol::UserConstant8 => seq!['u', '8'],
            Symbol::UserConstant9 => seq!['u', '9'],
            Symbol::UserConstant10 => seq!['u', '1', '0'],
            Symbol::UserConstant11 => seq!['u', '1', '1'],
            Symbol::UserConstant12 => seq!['u', '1', '2'],
            Symbol::UserConstant13 => seq!['u', '1', '3'],
            Symbol::UserConstant14 => seq!['u', '1', '4'],
            Symbol::UserConstant15 => seq!['u', '1', '5'],
            Symbol::Neg => seq!['-'],
            Symbol::Recip => seq!['1', '/'],
            Symbol::Sqrt => seq!['s', 'q', 'r', 't'],
            Symbol::Square => seq!['^', '2'],
            Symbol::Ln => seq!['l', 'n'],
            Symbol::Exp => seq!['e', '^'],
            Symbol::SinPi => seq!['s', 'i', 'n', 'p', 'i'],
            Symbol::CosPi => seq!['c', 'o', 's', 'p', 'i'],
            Symbol::TanPi => seq!['t', 'a', 'n', 'p', 'i'],
            Symbol::LambertW => seq!['W'],
            Symbol::UserFunction0 => seq!['f', '0'],
            Symbol::UserFunction1 => seq!['f', '1'],
            Symbol::UserFunction2 => seq!['f', '2'],
            Symbol::UserFunction3 => seq!['f', '3'],
            Symbol::UserFunction4 => seq!['f', '4'],
            Symbol::UserFunction5 => seq!['f', '5'],
            Symbol::UserFunction6 => seq!['f', '6'],
            Symbol::UserFunction7 => seq!['f', '7'],
            Symbol::UserFunction8 => seq!['f', '8'],
            Symbol::UserFunction9 => seq!['f', '9'],
            Symbol::UserFunction10 => seq!['f', '1', '0'],
            Symbol::UserFunction11 => seq!['f', '1', '1'],
            Symbol::UserFunction12 => seq!['f', '1', '2'],
            Symbol::UserFunction13 => seq!['f', '1', '3'],
            Symbol::UserFunction14 => seq!['f', '1', '4'],
            Symbol::UserFunction15 => seq!['f', '1', '5'],
            Symbol::Add => seq!['+'],
            Symbol::Sub => seq!['-'],
            Symbol::Mul => seq!['*'],
            Symbol::Div => seq!['/'],
            Symbol::Pow => seq!['*', '*'],
            Symbol::Root => seq!['"', '/'],
            Symbol::Log => seq!['l', 'o', 'g', 'n'],
            Symbol::Atan2 => seq!['a', 't', 'a', 'n', '2'],
        }
    }

    /// Display name of the symbol, as a vector of characters.
    pub fn name_chars(self) -> (v: Vec<char>)
        ensures
            v@ == self.name_of(),
    {
        match self {
            Symbol::One => vec!['1'],
            Symbol::Two => vec!['2'],
            Symbol::Three => vec!['3'],
            Symbol::Four => vec!['4'],
            Symbol::Five => vec!['5'],
            Symbol::Six => vec!['6'],
            Symbol::Seven => vec!['7'],
            Symbol::Eight => vec!['8'],
            Symbol::Nine => vec!['9'],
            Symbol::Pi => vec!['p', 'i'],
            Symbol::E => vec!['e'],
            Symbol::Phi => vec!['p', 'h', 'i'],
            Symbol::Gamma => vec!['g', 'a', 'm', 'm', 'a'],
            Symbol::Plastic => vec!['p', 'l', 'a', 's', 't', 'i', 'c'],
            Symbol::Apery => vec!['z', 'e', 't', 'a', '3'],
            Symbol::Catalan => vec!['G'],
            Symbol::X => vec!['x'],
            Symbol::UserConstant0 => vec!['u', '0'],
            Symbol::UserConstant1 => vec!['u', '1'],
            Symbol::UserConstant2 => vec!['u', '2'],
            Symbol::UserConstant3 => vec!['u', '3'],
            Symbol::UserConstant4 => vec!['u', '4'],
            Symbol::UserConstant5 => vec!['u', '5'],
            Symbol::UserConstant6 => vec!['u', '6'],
            Symbol::UserConstant7 => vec!['u', '7'],
            Symbol::UserConstant8 => vec!['u', '8'],
            Symbol::UserConstant9 => vec!['u', '9'],
            Symbol::UserConstant10 => vec!['u', '1', '0'],
            Symbol::UserConstant11 => vec!['u', '1', '1'],
            Symbol::UserConstant12 => vec!['u', '1', '2'],
            Symbol::UserConstant13 => vec!['u', '1', '3'],
            Symbol::UserConstant14 => vec!['u', '1', '4'],
            Symbol::UserConstant15 => vec!['u', '1', '5'],
            Symbol::Neg => vec!['-'],
            Symbol::Recip => vec!['1', '/'],
            Symbol::Sqrt => vec!['s', 'q', 'r', 't'],
            Symbol::Square => vec!['^', '2'],
            Symbol::Ln => vec!['l', 'n'],
            Symbol::Exp => vec!['e', '^'],
            Symbol::SinPi => vec!['s', 'i', 'n', 'p', 'i'],
            Symbol::CosPi => vec!['c', 'o', 's', 'p', 'i'],
            Symbol::TanPi => vec!['t', 'a', 'n', 'p', 'i'],
            Symbol::LambertW => vec!['W'],
            Symbol::UserFunction0 => vec!['f', '0'],
            Symbol::UserFunction1 => vec!['f', '1'],
            Symbol::UserFunction2 => vec!['f', '2'],
            Symbol::UserFunction3 => vec!['f', '3'],
            Symbol::UserFunction4 => vec!['f', '4'],
            Symbol::UserFunction5 => vec!['f', '5'],
            Symbol::UserFunction6 => vec!['f', '6'],
            Symbol::UserFunction7 => vec!['f', '7'],
            Symbol::UserFunction8 => vec!['f', '8'],
            Symbol::UserFunction9 => vec!['f', '9'],
            Symbol::UserFunction10 => vec!['f', '1', '0'],
            Symbol::UserFunction11 => vec!['f', '1', '1'],
            Symbol::UserFunction12 => vec!['f', '1', '2'],
            Symbol::UserFunction13 => vec!['f', '1', '3'],
            Symbol::UserFunction14 => vec!['f', '1', '4'],
            Symbol::UserFunction15 => vec!['f', '1', '5'],
            Symbol::Add => vec!['+'],
            Symbol::Sub => vec!['-'],
            Symbol::Mul => vec!['*'],
            Symbol::Div => vec!['/'],
            Symbol::Pow => vec!['*', '*'],
            Symbol::Root => vec!['"', '/'],
            Symbol::Log => vec!['l', 'o', 'g', 'n'],
            Symbol::Atan2 => vec!['a', 't', 'a', 'n', '2'],
        }
    }

    /// Display name of the symbol.
    pub fn name(self) -> (r: &'static str)
        ensures
            r@ == self.name_of(),
    {
        match self {
            Symbol::One => {
                proof {
                    reveal_strlit("1");
                }
                "1"
            },
            Symbol::Two => {
                proof {
                    reveal_strlit("2");
                }
                "2"
            },
            Symbol::Three => {
                proof {
                    reveal_strlit("3");
                }
                "3"
            },
            Symbol::Four => {
                proof {
                    reveal_strlit("4");
                }
                "4"
            },
            Symbol::Five => {
                proof {
                    reveal_strlit("5");
                }
                "5"
            },
            Symbol::Six => {
                proof {
                    reveal_strlit("6");
                }
                "6"
            },
            Symbol::Seven => {
                proof {
                    reveal_strlit("7");
                }
                "7"
            },
            Symbol::Eight => {
                proof {
                    reveal_strlit("8");
                }
                "8"
            },
            Symbol::Nine => {
                proof {
                    reveal_strlit("9");
                }
                "9"
            },
            Symbol::Pi => {
                proof {
                    reveal_strlit("pi");
                }
                "pi"
            },
            Symbol::E => {
                proof {
                    reveal_strlit("e");
                }
                "e"
            },
            Symbol::Phi => {
                proof {
                    reveal_strlit("phi");
                }
                "phi"
            },
            Symbol::Gamma => {
                proof {
                    reveal_strlit("gamma");
                }
                "gamma"
            },
            Symbol::Plastic => {
                proof {
                    reveal_strlit("plastic");
                }
                "plastic"
            },
            Symbol::Apery => {
                proof {
                    reveal_strlit("zeta3");
                }
                "zeta3"
            },
            Symbol::Catalan => {
                proof {
                    reveal_strlit("G");
                }
                "G"
            },
            Symbol::X => {
                proof {
                    reveal_strlit("x");
                }
                "x"
            },
            Symbol::UserConstant0 => {
                proof {
                    reveal_strlit("u0");
                }
                "u0"
            },
            Symbol::UserConstant1 => {
                proof {
                    reveal_strlit("u1");
                }
                "u1"
            },
            Symbol::UserConstant2 => {
                proof {
                    reveal_strlit("u2");
                }
                "u2"
            },
            Symbol::UserConstant3 => {
                proof {
                    reveal_strlit("u3");
                }
                "u3"
            },
            Symbol::UserConstant4 => {
                proof {
                    reveal_strlit("u4");
                }
                "u4"
            },
            Symbol::UserConstant5 => {
                proof {
                    reveal_strlit("u5");
                }
                "u5"
            },
            Symbol::UserConstant6 => {
                proof {
                    reveal_strlit("u6");
                }
                "u6"
            },
            Symbol::UserConstant7 => {
                proof {
                    reveal_strlit("u7");
                }
                "u7"
            },
            Symbol::UserConstant8 => {
                proof {
                    reveal_strlit("u8");
                }
                "u8"
            },
            Symbol::UserConstant9 => {
                proof {
                    reveal_strlit("u9");
                }
                "u9"
            },
            Symbol::UserConstant10 => {
                proof {
                    reveal_strlit("u10");
                }
                "u10"
            },
            Symbol::UserConstant11 => {
                proof {
                    reveal_strlit("u11");
                }
                "u11"
            },
            Symbol::UserConstant12 => {
                proof {
                    reveal_strlit("u12");
                }
                "u12"
            },
            Symbol::UserConstant13 => {
                proof {
                    reveal_strlit("u13");
                }
                "u13"
            },
            Symbol::UserConstant14 => {
                proof {
                    reveal_strlit("u14");
                }
                "u14"
            },
            Symbol::UserConstant15 => {
                proof {
                    reveal_strlit("u15");
                }
                "u15"
            },
            Symbol::Neg => {
                proof {
                    reveal_strlit("-");
                }
                "-"
            },
            Symbol::Recip => {
                proof {
                    reveal_strlit("1/");
                }
                "1/"
            },
            Symbol::Sqrt => {
                proof {
                    reveal_strlit("sqrt");
                }
                "sqrt"
            },
            Symbol::Square => {
                proof {
                    reveal_strlit("^2");
                }
                "^2"
            },
            Symbol::Ln => {
                proof {
                    reveal_strlit("ln");
                }
                "ln"
            },
            Symbol::Exp => {
                proof {
                    reveal_strlit("e^");
                }
                "e^"
            },
            Symbol::SinPi => {
                proof {
                    reveal_strlit("sinpi");
                }
                "sinpi"
            },
            Symbol::CosPi => {
                proof {
                    reveal_strlit("cospi");
                }
                "cospi"
            },
            Symbol::TanPi => {
                proof {
                    reveal_strlit("tanpi");
                }
                "tanpi"
            },
            Symbol::LambertW => {
                proof {
                    reveal_strlit("W");
                }
                "W"
            },
            Symbol::UserFunction0 => {
                proof {
                    reveal_strlit("f0");
                }
                "f0"
            },
            Symbol::UserFunction1 => {
                proof {
                    reveal_strlit("f1");
                }
                "f1"
            },
            Symbol::UserFunction2 => {
                proof {
                    reveal_strlit("f2");
                }
                "f2"
            },
            Symbol::UserFunction3 => {
                proof {
                    reveal_strlit("f3");
                }
                "f3"
            },
            Symbol::UserFunction4 => {
                proof {
                    reveal_strlit("f4");
                }
                "f4"
            },
            Symbol::UserFunction5 => {
                proof {
                    reveal_strlit("f5");
                }
                "f5"
            },
            Symbol::UserFunction6 => {
                proof {
                    reveal_strlit("f6");
                }
                "f6"
            },
            Symbol::UserFunction7 => {
                proof {
                    reveal_strlit("f7");
                }
                "f7"
            },
            Symbol::UserFunction8 => {
                proof {
                    reveal_strlit("f8");
                }
                "f8"
            },
            Symbol::UserFunction9 => {
                proof {
                    reveal_strlit("f9");
                }
                "f9"
            },
            Symbol::UserFunction10 => {
                proof {
                    reveal_strlit("f10");
                }
                "f10"
            },
            Symbol::UserFunction11 => {
                proof {
                    reveal_strlit("f11");
                }
                "f11"
            },
            Symbol::UserFunction12 => {
                proof {
                    reveal_strlit("f12");
                }
                "f12"
            },
            Symbol::UserFunction13 => {
                proof {
                    reveal_strlit("f13");
                }
                "f13"
            },
            Symbol::UserFunction14 => {
                proof {
                    reveal_strlit("f14");
                }
                "f14"
            },
            Symbol::UserFunction15 => {
                proof {
                    reveal_strlit("f15");
                }
                "f15"
            },
            Symbol::Add => {
                proof {
                    reveal_strlit("+");
                }
                "+"
            },
            Symbol::Sub => {
                proof {
                    reveal_strlit("-");
                }
                "-"
            },
            Symbol::Mul => {
                proof {
                    reveal_strlit("*");
                }
                "*"
            },
            Symbol::Div => {
                proof {
                    reveal_strlit("/");
                }
                "/"
            },
            Symbol::Pow => {
                proof {
                    reveal_strlit("**");
                }
                "**"
            },
            Symbol::Root => {
                proof {
                    reveal_strlit("\"/");
                }
                "\"/"
            },
            Symbol::Log => {
                proof {
                    reveal_strlit("logn");
                }
                "logn"
            },
            Symbol::Atan2 => {
                proof {
                    reveal_strlit("atan2");
                }
                "atan2"
            },
        }
    }

    /// Display name of the symbol, as an owned string.
    pub fn display_name(self) -> (r: String)
        ensures
            r@ == self.name_of(),
    {
        let v = self.name_chars();
        chars_to_string(&v)
    }

    /// The class of number that the symbol denotes, for symbols that push a value.
    pub open spec fn inherent_type_of(self) -> NumType {
        match self {
            Symbol::One => NumType::Integer,
            Symbol::Two => NumType::Integer,
            Symbol::Three => NumType::Integer,
            Symbol::Four => NumType::Integer,
            Symbol::Five => NumType::Integer,
            Symbol::Six => NumType::Integer,
            Symbol::Seven => NumType::Integer,
            Symbol::Eight => NumType::Integer,
            Symbol::Nine => NumType::Integer,
            Symbol::Pi => NumType::Transcendental,
            Symbol::E => NumType::Transcendental,
            Symbol::Phi => NumType::Constructible,
            Symbol::Gamma => NumType::Transcendental,
            Symbol::Plastic => NumType::Algebraic,
            Symbol::Apery => NumType::Transcendental,
            Symbol::Catalan => NumType::Transcendental,
            _ => NumType::Transcendental,
        }
    }

    /// The class of number that the symbol denotes, for symbols that push a value.
    pub fn inherent_type(self) -> (r: NumType)
        ensures
            r == self.inherent_type_of(),
    {
        match self {
            Symbol::One => NumType::Integer,
            Symbol::Two => NumType::Integer,
            Symbol::Three => NumType::Integer,
            Symbol::Four => NumType::Integer,
            Symbol::Five => NumType::Integer,
            Symbol::Six => NumType::Integer,
            Symbol::Seven => NumType::Integer,
            Symbol::Eight => NumType::Integer,
            Symbol::Nine => NumType::Integer,
            Symbol::Pi => NumType::Transcendental,
            Symbol::E => NumType::Transcendental,
            Symbol::Phi => NumType::Constructible,
            Symbol::Gamma => NumType::Transcendental,
            Symbol::Plastic => NumType::Algebraic,
            Symbol::Apery => NumType::Transcendental,
            Symbol::Catalan => NumType::Transcendental,
            _ => NumType::Transcendental,
        }
    }

    /// Slot number of a user-defined constant symbol.
    pub open spec fn user_constant_index_of(self) -> Option<u8> {
        match self {
            Symbol::UserConstant0 => Some(0u8),
            Symbol::UserConstant1 => Some(1u8),
            Symbol::UserConstant2 => Some(2u8),
            Symbol::UserConstant3 => Some(3u8),
            Symbol::UserConstant4 => Some(4u8),
            Symbol::UserConstant5 => Some(5u8),
            Symbol::UserConstant6 => Some(6u8),
            Symbol::UserConstant7 => Some(7u8),
            Symbol::UserConstant8 => Some(8u8),
            Symbol::UserConstant9 => Some(9u8),
            Symbol::UserConstant10 => Some(10u8),
            Symbol::UserConstant11 => Some(11u8),
            Symbol::UserConstant12 => Some(12u8),
            Symbol::UserConstant13 => Some(13u8),
            Symbol::UserConstant14 => Some(14u8),
            Symbol::UserConstant15 => Some(15u8),
            _ => None,
        }
    }

    /// Slot number of a user-defined constant symbol.
    pub fn user_constant_index(self) -> (r: Option<u8>)
        ensures
            r == self.user_constant_index_of(),
    {
        match self {
            Symbol::UserConstant0 => Some(0u8),
            Symbol::UserConstant1 => Some(1u8),
            Symbol::UserConstant2 => Some(2u8),
            Symbol::UserConstant3 => Some(3u8),
            Symbol::UserConstant4 => Some(4u8),
            Symbol::UserConstant5 => Some(5u8),
            Symbol::UserConstant6 => Some(6u8),
            Symbol::UserConstant7 => Some(7u8),
            Symbol::UserConstant8 => Some(8u8),
            Symbol::UserConstant9 => Some(9u8),
            Symbol::UserConstant10 => Some(10u8),
            Symbol::UserConstant11 => Some(11u8),
            Symbol::UserConstant12 => Some(12u8),
            Symbol::UserConstant13 => Some(13u8),
            Symbol::UserConstant14 => Some(14u8),
            Symbol::UserConstant15 => Some(15u8),
            _ => None,
        }
    }

    /// Slot number of a user-defined function symbol.
    pub open spec fn user_function_index_of(self) -> Option<u8> {
        match self {
            Symbol::UserFunction0 => Some(0u8),
            Symbol::UserFunction1 => Some(1u8),
            Symbol::UserFunction2 => Some(2u8),
            Symbol::UserFunction3 => Some(3u8),
            Symbol::UserFunction4 => Some(4u8),
            Symbol::UserFunction5 => Some(5u8),
            Symbol::UserFunction6 => Some(6u8),
            Symbol::UserFunction7 => Some(7u8),
            Symbol::UserFunction8 => Some(8u8),
            Symbol::UserFunction9 => Some(9u8),
            Symbol::UserFunction10 => Some(10u8),
            Symbol::UserFunction11 => Some(11u8),
            Symbol::UserFunction12 => Some(12u8),
            Symbol::UserFunction13 => Some(13u8),
            Symbol::UserFunction14 => Some(14u8),
            Symbol::UserFunction15 => Some(15u8),
            _ => None,
        }
    }

    /// Slot number of a user-defined function symbol.
    pub fn user_function_index(self) -> (r: Option<u8>)
        ensures
            r == self.user_function_index_of(),
    {
        match self {
            Symbol::UserFunction0 => Some(0u8),
            Symbol::UserFunction1 => Some(1u8),
            Symbol::UserFunction2 => Some(2u8),
            Symbol::UserFunction3 => Some(3u8),
            Symbol::UserFunction4 => Some(4u8),
            Symbol::UserFunction5 => Some(5u8),
            Symbol::UserFunction6 => Some(6u8),
            Symbol::UserFunction7 => Some(7u8),
            Symbol::UserFunction8 => Some(8u8),
            Symbol::UserFunction9 => Some(9u8),
            Symbol::UserFunction10 => Some(10u8),
            Symbol::UserFunction11 => Some(11u8),
            Symbol::UserFunction12 => Some(12u8),
            Symbol::UserFunction13 => Some(13u8),
            Symbol::UserFunction14 => Some(14u8),
            Symbol::UserFunction15 => Some(15u8),
            _ => None,
        }
    }

    /// The built-in symbols that push a value, including `x`.
    pub open spec fn builtin_constants() -> Seq<Symbol> {
        seq![Symbol::One, Symbol::Two, Symbol::Three, Symbol::Four, Symbol::Five, Symbol::Six, Symbol::Seven, Symbol::Eight, Symbol::Nine, Symbol::Pi, Symbol::E, Symbol::Phi, Symbol::Gamma, Symbol::Plastic, Symbol::Apery, Symbol::Catalan, Symbol::X]
    }

    /// The built-in symbols that push a value, including `x`.
    pub fn constants() -> (v: Vec<Symbol>)
        ensures
            v@ == Symbol::builtin_constants(),
    {
        vec![Symbol::One, Symbol::Two, Symbol::Three, Symbol::Four, Symbol::Five, Symbol::Six, Symbol::Seven, Symbol::Eight, Symbol::Nine, Symbol::Pi, Symbol::E, Symbol::Phi, Symbol::Gamma, Symbol::Plastic, Symbol::Apery, Symbol::Catalan, Symbol::X]
    }

    /// The built-in functions of one argument.
    pub open spec fn builtin_unary_ops() -> Seq<Symbol> {
        seq![Symbol::Neg, Symbol::Recip, Symbol::Sqrt, Symbol::Square, Symbol::Ln, Symbol::Exp, Symbol::SinPi, Symbol::CosPi, Symbol::TanPi, Symbol::LambertW]
    }

    /// The built-in functions of one argument.
    pub fn unary_ops() -> (v: Vec<Symbol>)
        ensures
            v@ == Symbol::builtin_unary_ops(),
    {
        vec![Symbol::Neg, Symbol::Recip, Symbol::Sqrt, Symbol::Square, Symbol::Ln, Symbol::Exp, Symbol::SinPi, Symbol::CosPi, Symbol::TanPi, Symbol::LambertW]
    }

    /// The built-in functions of two arguments.
    pub open spec fn builtin_binary_ops() -> Seq<Symbol> {
        seq![Symbol::Add, Symbol::Sub, Symbol::Mul, Symbol::Div, Symbol::Pow, Symbol::Root, Symbol::Log, Symbol::Atan2]
    }

    /// The built-in functions of two arguments.
    pub fn binary_ops() -> (v: Vec<Symbol>)
        ensures
            v@ == Symbol::builtin_binary_ops(),
    {
        vec![Symbol::Add, Symbol::Sub, Symbol::Mul, Symbol::Div, Symbol::Pow, Symbol::Root, Symbol::Log, Symbol::Atan2]
    }

}

/// Decoding the byte of a symbol gives the symbol back.
pub proof fn lemma_symbol_byte_roundtrip(s: Symbol)
    ensures
        Symbol::symbol_of_byte(s.byte_of()) == Some(s),
{
}

/// A byte that decodes to a symbol is that symbol's byte: no two symbols share a byte.
pub proof fn lemma_byte_symbol_roundtrip(b: u8)
    ensures
        Symbol::symbol_of_byte(b) matches Some(s) ==> s.byte_of() == b,
{
}

} // verus!
