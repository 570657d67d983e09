use vstd::prelude::*;

verus! {

/// Why a hexadecimal string could not be decoded.
#[derive(Debug, Clone, Copy, PartialEq, Eq)]
pub enum HexError {
    /// A byte that is not `0-9`, `a-f` or `A-F`; `c` is that byte read as a
    /// char and `index` its position.
    InvalidHexCharacter { c: char, index: usize },
    /// The string has an odd number of digits.
    OddLength,
    /// The string does not hold exactly two digits per output byte.
    InvalidStringLength,
}

/// Why a decimal integer could not be read.
#[derive(Debug, Clone, Copy, PartialEq, Eq)]
pub enum IntErrorKind {
    /// The text is empty.
    Empty,
    /// The text holds something other than an optional `+` and digits.
    InvalidDigit,
    /// The value does not fit the target type.
    PosOverflow,
}

/// Errors raised while building, decoding or naming file metadata.
#[derive(Debug, PartialEq, Eq)]
pub enum Error {
    InvalidFileExtNum(u8),
    InvalidFileExtName(String),
    InvalidByteArrayLength(usize),
    InvalidWidth(u16),
    InvalidHeight(u16),
    InsufficientResolution(u16),
    SizeExceedsLimitForExtension(u32, u32),
    InvalidFileSizeZero,
    InvalidStringFormat,
    FileSizeMismatch,
    FileHashMismatch,
    TryFromSliceError,
    FromHexError(HexError),
    ParseIntError(IntErrorKind),
}

/// The mathematical content of an error: the text of a refused format name
/// as characters, every other error as it is.
pub enum ErrorView {
    InvalidFileExtName(Seq<char>),
    Other(Error),
}

impl View for Error {
    type V = ErrorView;

    open spec fn view(&self) -> ErrorView {
        match self {
            Error::InvalidFileExtName(s) => ErrorView::InvalidFileExtName(s@),
            _ => ErrorView::Other(*self),
        }
    }
}

} // verus!
