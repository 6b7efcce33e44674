//! Code points of ITU-T H.273 (CICP) used in the `colr` box.

use vstd::prelude::*;

verus! {

/// Colour primaries (H.273 table 2).
#[derive(Debug, Clone, Copy, PartialEq, Eq, Structural)]
#[non_exhaustive]
pub enum ColorPrimaries {
    Bt709,
    Unspecified,
    Bt470M,
    Bt470BG,
    Bt601,
    Smpte240,
    GenericFilm,
    Bt2020,
    Xyz,
    Smpte431,
    Smpte432,
    Ebu3213,
}

impl ColorPrimaries {
    /// The H.273 code point.
    pub open spec fn code_point(self) -> u16 {
        match self {
            ColorPrimaries::Bt709 => 1,
            ColorPrimaries::Unspecified => 2,
            ColorPrimaries::Bt470M => 4,
            ColorPrimaries::Bt470BG => 5,
            ColorPrimaries::Bt601 => 6,
            ColorPrimaries::Smpte240 => 7,
            ColorPrimaries::GenericFilm => 8,
            ColorPrimaries::Bt2020 => 9,
            ColorPrimaries::Xyz => 10,
            ColorPrimaries::Smpte431 => 11,
            ColorPrimaries::Smpte432 => 12,
            ColorPrimaries::Ebu3213 => 22,
        }
    }

    /// The H.273 code point.
    pub fn code(self) -> (c: u16)
        ensures
            c == self.code_point(),
    {
        match self {
            ColorPrimaries::Bt709 => 1,
            ColorPrimaries::Unspecified => 2,
            ColorPrimaries::Bt470M => 4,
            ColorPrimaries::Bt470BG => 5,
            ColorPrimaries::Bt601 => 6,
            ColorPrimaries::Smpte240 => 7,
            ColorPrimaries::GenericFilm => 8,
            ColorPrimaries::Bt2020 => 9,
            ColorPrimaries::Xyz => 10,
            ColorPrimaries::Smpte431 => 11,
            ColorPrimaries::Smpte432 => 12,
            ColorPrimaries::Ebu3213 => 22,
        }
    }
}

/// Transfer characteristics (H.273 table 3).
#[derive(Debug, Clone, Copy, PartialEq, Eq, Structural)]
#[non_exhaustive]
pub enum TransferCharacteristics {
    Bt709,
    Unspecified,
    Bt470M,
    Bt470BG,
    Bt601,
    Smpte240,
    Linear,
    Log,
    LogSqrt,
    Iec61966,
    Bt1361,
    Srgb,
    Bt2020_10,
    Bt2020_12,
    Smpte2084,
    Smpte428,
    Hlg,
}

impl TransferCharacteristics {
    /// The H.273 code point.
    pub open spec fn code_point(self) -> u16 {
        match self {
            TransferCharacteristics::Bt709 => 1,
            TransferCharacteristics::Unspecified => 2,
            TransferCharacteristics::Bt470M => 4,
            TransferCharacteristics::Bt470BG => 5,
            TransferCharacteristics::Bt601 => 6,
            TransferCharacteristics::Smpte240 => 7,
            TransferCharacteristics::Linear => 8,
            TransferCharacteristics::Log => 9,
            TransferCharacteristics::LogSqrt => 10,
            TransferCharacteristics::Iec61966 => 11,
            TransferCharacteristics::Bt1361 => 12,
            TransferCharacteristics::Srgb => 13,
            TransferCharacteristics::Bt2020_10 => 14,
            TransferCharacteristics::Bt2020_12 => 15,
            TransferCharacteristics::Smpte2084 => 16,
            TransferCharacteristics::Smpte428 => 17,
            TransferCharacteristics::Hlg => 18,
        }
    }

    /// The H.273 code point.
    pub fn code(self) -> (c: u16)
        ensures
            c == self.code_point(),
    {
        match self {
            TransferCharacteristics::Bt709 => 1,
            TransferCharacteristics::Unspecified => 2,
            TransferCharacteristics::Bt470M => 4,
            TransferCharacteristics::Bt470BG => 5,
            TransferCharacteristics::Bt601 => 6,
            TransferCharacteristics::Smpte240 => 7,
            TransferCharacteristics::Linear => 8,
            TransferCharacteristics::Log => 9,
            TransferCharacteristics::LogSqrt => 10,
            TransferCharacteristics::Iec61966 => 11,
            TransferCharacteristics::Bt1361 => 12,
            TransferCharacteristics::Srgb => 13,
            TransferCharacteristics::Bt2020_10 => 14,
            TransferCharacteristics::Bt2020_12 => 15,
            TransferCharacteristics::Smpte2084 => 16,
            TransferCharacteristics::Smpte428 => 17,
            TransferCharacteristics::Hlg => 18,
        }
    }
}

/// Matrix coefficients (H.273 table 4).
#[derive(Debug, Clone, Copy, PartialEq, Eq, Structural)]
#[non_exhaustive]
pub enum MatrixCoefficients {
    Rgb,
    Bt709,
    Unspecified,
    Fcc,
    Bt470BG,
    Bt601,
    Smpte240,
    Ycgco,
    Bt2020Ncl,
    Bt2020Cl,
    Smpte2085,
    ChromatNcl,
    ChromatCl,
    ICtCp,
}

impl MatrixCoefficients {
    /// The H.273 code point.
    pub open spec fn code_point(self) -> u16 {
        match self {
            MatrixCoefficients::Rgb => 0,
            MatrixCoefficients::Bt709 => 1,
            MatrixCoefficients::Unspecified => 2,
            MatrixCoefficients::Fcc => 4,
            MatrixCoefficients::Bt470BG => 5,
            MatrixCoefficients::Bt601 => 6,
            MatrixCoefficients::Smpte240 => 7,
            MatrixCoefficients::Ycgco => 8,
            MatrixCoefficients::Bt2020Ncl => 9,
            MatrixCoefficients::Bt2020Cl => 10,
            MatrixCoefficients::Smpte2085 => 11,
            MatrixCoefficients::ChromatNcl => 12,
            MatrixCoefficients::ChromatCl => 13,
            MatrixCoefficients::ICtCp => 14,
        }
    }

    /// The H.273 code point.
    pub fn code(self) -> (c: u16)
        ensures
            c == self.code_point(),
    {
        match self {
            MatrixCoefficients::Rgb => 0,
            MatrixCoefficients::Bt709 => 1,
            MatrixCoefficients::Unspecified => 2,
            MatrixCoefficients::Fcc => 4,
            MatrixCoefficients::Bt470BG => 5,
            MatrixCoefficients::Bt601 => 6,
            MatrixCoefficients::Smpte240 => 7,
            MatrixCoefficients::Ycgco => 8,
            MatrixCoefficients::Bt2020Ncl => 9,
            MatrixCoefficients::Bt2020Cl => 10,
            MatrixCoefficients::Smpte2085 => 11,
            MatrixCoefficients::ChromatNcl => 12,
            MatrixCoefficients::ChromatCl => 13,
            MatrixCoefficients::ICtCp => 14,
        }
    }
}

} // verus!
