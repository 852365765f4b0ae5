//! What can go wrong while a drive is found, opened, written or checked.
use crate::aligned::LayoutError;
use crate::data_types::HashFailedWhen;
use crate::decimal::ParseIntError;
use vstd::prelude::*;

verus! {

/// The result of an operation on a drive.
pub type FlashResult<T> = Result<T, FlashError>;

/// The kind of a failed input or output operation.
#[derive(Debug, PartialEq, Eq)]
pub enum IoErrorKind {
    /// The file or device does not exist.
    NotFound,
    /// The process may not do this.
    PermissionDenied,
    /// The file or device is in use.
    ResourceBusy,
    /// Any other kind, by its description.
    Other(String),
}

/// A failed input or output operation.
#[derive(Debug, PartialEq, Eq)]
pub struct IoError {
    /// What kind of failure it is.
    pub kind: IoErrorKind,
    /// What the system says of it.
    pub message: String,
}

impl Clone for IoErrorKind {
    fn clone(&self) -> (copy: Self)
        ensures
            copy == *self,
    {
        match self {
            IoErrorKind::NotFound => IoErrorKind::NotFound,
            IoErrorKind::PermissionDenied => IoErrorKind::PermissionDenied,
            IoErrorKind::ResourceBusy => IoErrorKind::ResourceBusy,
            IoErrorKind::Other(text) => IoErrorKind::Other(text.clone()),
        }
    }
}

impl Clone for IoError {
    fn clone(&self) -> (copy: Self)
        ensures
            copy == *self,
    {
        IoError { kind: self.kind.clone(), message: self.message.clone() }
    }
}

/// A number does not fit the type it is converted to.
#[derive(Debug, Clone, Copy, PartialEq, Eq, Structural)]
pub struct TryFromIntError;

/// An error of the library.
#[derive(Debug, PartialEq, Eq)]
pub enum FlashError {
    /// The process is neither root nor administrator.
    InsufficientPrivileges,
    /// The SHA-512 hash does not match.
    Sha2512HashDoesNotMatch,
    /// The SHA-256 hash does not match.
    Sha256HashDoesNotMatch(HashFailedWhen),
    /// There is no such device.
    DeviceNotFound(String),
    /// The device is in use.
    DeviceBusy { path: String },
    /// The device could not be unmounted.
    UnmountFailed { device: String, reason: String },
    /// A write failed at an offset.
    WriteFailed { offset: u64, source: IoError },
    /// The device could not be locked for exclusive use.
    FileLockFailed { device: String, reason: String },
    /// What was read back has another hash than expected.
    VerificationFailed { failed_hash_hex: String, expected_hex: String },
    /// Synchronisation failed.
    SyncError,
    /// An input or output operation failed.
    Io(IoError),
    /// A text is no number.
    ParseInt(ParseIntError),
    /// A number is out of range.
    TryInt(TryFromIntError),
    /// Nobody receives the progress any more.
    SendChannelError,
    /// The file system reports an error.
    FilesystemError(String),
    /// The memory for a buffer cannot be laid out.
    Layour(LayoutError),
    /// An array was accessed out of bounds.
    OutOfBoundsArray,
    /// The image, of the first size, does not fit the target, of the second.
    TargetToSmall(u64, u64),
    /// The handle holds no open drive.
    WindowsHandle,
    /// A Windows call failed without a code.
    WindowsGenericError,
    /// A Windows call failed.
    WindowsError(String),
    /// A D-Bus value has the wrong type.
    ZvariantError(String),
    /// A D-Bus call failed.
    Zbus(String),
    /// A D-Bus service reports an error.
    Fdo(String),
}

/// The kind of a failed operation, as contracts speak of it.
pub enum IoErrorKindView {
    NotFound,
    PermissionDenied,
    ResourceBusy,
    Other(Seq<char>),
}

impl View for IoErrorKind {
    type V = IoErrorKindView;

    open spec fn view(&self) -> IoErrorKindView {
        match self {
            IoErrorKind::NotFound => IoErrorKindView::NotFound,
            IoErrorKind::PermissionDenied => IoErrorKindView::PermissionDenied,
            IoErrorKind::ResourceBusy => IoErrorKindView::ResourceBusy,
            IoErrorKind::Other(text) => IoErrorKindView::Other(text@),
        }
    }
}

/// An error, as contracts speak of it: every text by its characters.
pub enum FlashErrorView {
    InsufficientPrivileges,
    Sha2512HashDoesNotMatch,
    Sha256HashDoesNotMatch(HashFailedWhen),
    DeviceNotFound(Seq<char>),
    DeviceBusy(Seq<char>),
    UnmountFailed { device: Seq<char>, reason: Seq<char> },
    WriteFailed { offset: u64, kind: IoErrorKindView, message: Seq<char> },
    FileLockFailed { device: Seq<char>, reason: Seq<char> },
    VerificationFailed { failed_hash_hex: Seq<char>, expected_hex: Seq<char> },
    SyncError,
    Io(IoErrorKindView, Seq<char>),
    ParseInt(ParseIntError),
    TryInt,
    SendChannelError,
    FilesystemError(Seq<char>),
    Layour,
    OutOfBoundsArray,
    TargetToSmall(u64, u64),
    WindowsHandle,
    WindowsGenericError,
    WindowsError(Seq<char>),
    ZvariantError(Seq<char>),
    Zbus(Seq<char>),
    Fdo(Seq<char>),
}

impl View for FlashError {
    type V = FlashErrorView;

    open spec fn view(&self) -> FlashErrorView {
        match self {
            FlashError::InsufficientPrivileges => FlashErrorView::InsufficientPrivileges,
            FlashError::Sha2512HashDoesNotMatch => FlashErrorView::Sha2512HashDoesNotMatch,
            FlashError::Sha256HashDoesNotMatch(when) => FlashErrorView::Sha256HashDoesNotMatch(
                *when,
            ),
            FlashError::DeviceNotFound(path) => FlashErrorView::DeviceNotFound(path@),
            FlashError::DeviceBusy { path } => FlashErrorView::DeviceBusy(path@),
            FlashError::UnmountFailed { device, reason } => FlashErrorView::UnmountFailed {
                device: device@,
                reason: reason@,
            },
            FlashError::WriteFailed { offset, source } => FlashErrorView::WriteFailed {
                offset: *offset,
                kind: source.kind@,
                message: source.message@,
            },
            FlashError::FileLockFailed { device, reason } => FlashErrorView::FileLockFailed {
                device: device@,
                reason: reason@,
            },
            FlashError::VerificationFailed {
                failed_hash_hex,
                expected_hex,
            } => FlashErrorView::VerificationFailed {
                failed_hash_hex: failed_hash_hex@,
                expected_hex: expected_hex@,
            },
            FlashError::SyncError => FlashErrorView::SyncError,
            FlashError::Io(e) => FlashErrorView::Io(e.kind@, e.message@),
            FlashError::ParseInt(e) => FlashErrorView::ParseInt(*e),
            FlashError::TryInt(_) => FlashErrorView::TryInt,
            FlashError::SendChannelError => FlashErrorView::SendChannelError,
            FlashError::FilesystemError(text) => FlashErrorView::FilesystemError(text@),
            FlashError::Layour(_) => FlashErrorView::Layour,
            FlashError::OutOfBoundsArray => FlashErrorView::OutOfBoundsArray,
            FlashError::TargetToSmall(image, target) => FlashErrorView::TargetToSmall(
                *image,
                *target,
            ),
            FlashError::WindowsHandle => FlashErrorView::WindowsHandle,
            FlashError::WindowsGenericError => FlashErrorView::WindowsGenericError,
            FlashError::WindowsError(text) => FlashErrorView::WindowsError(text@),
            FlashError::ZvariantError(text) => FlashErrorView::ZvariantError(text@),
            FlashError::Zbus(text) => FlashErrorView::Zbus(text@),
            FlashError::Fdo(text) => FlashErrorView::Fdo(text@),
        }
    }
}

/// The error of a failed operation.
pub open spec fn io_failure(e: IoError) -> FlashErrorView {
    FlashErrorView::Io(e.kind@, e.message@)
}

/// A result, as contracts speak of it: the error by its view.
pub open spec fn result_view<T>(r: Result<T, FlashError>) -> Result<T, FlashErrorView> {
    match r {
        Ok(v) => Ok(v),
        Err(e) => Err(e@),
    }
}

/// What contracts say of an error is what it holds, and nothing is left out: its texts, its
/// numbers, and what the system says.
pub proof fn law_error_view(
    text: String,
    other: String,
    n: u64,
    m: u64,
    io: IoError,
    why: ParseIntError,
    when: HashFailedWhen,
)
    ensures
        FlashError::InsufficientPrivileges@ == FlashErrorView::InsufficientPrivileges,
        FlashError::Sha256HashDoesNotMatch(when)@ == FlashErrorView::Sha256HashDoesNotMatch(when),
        FlashError::DeviceNotFound(text)@ == FlashErrorView::DeviceNotFound(text@),
        (FlashError::DeviceBusy { path: text })@ == FlashErrorView::DeviceBusy(text@),
        (FlashError::UnmountFailed { device: text, reason: other })@ == (
        FlashErrorView::UnmountFailed { device: text@, reason: other@ }),
        (FlashError::WriteFailed { offset: n, source: io })@ == (FlashErrorView::WriteFailed {
            offset: n,
            kind: io.kind@,
            message: io.message@,
        }),
        (FlashError::FileLockFailed { device: text, reason: other })@ == (
        FlashErrorView::FileLockFailed { device: text@, reason: other@ }),
        (FlashError::VerificationFailed { failed_hash_hex: text, expected_hex: other })@ == (
        FlashErrorView::VerificationFailed { failed_hash_hex: text@, expected_hex: other@ }),
        FlashError::SyncError@ == FlashErrorView::SyncError,
        FlashError::Io(io)@ == FlashErrorView::Io(io.kind@, io.message@),
        io_failure(io) == FlashErrorView::Io(io.kind@, io.message@),
        FlashError::ParseInt(why)@ == FlashErrorView::ParseInt(why),
        FlashError::SendChannelError@ == FlashErrorView::SendChannelError,
        FlashError::FilesystemError(text)@ == FlashErrorView::FilesystemError(text@),
        FlashError::TargetToSmall(n, m)@ == FlashErrorView::TargetToSmall(n, m),
        FlashError::WindowsHandle@ == FlashErrorView::WindowsHandle,
        FlashError::WindowsGenericError@ == FlashErrorView::WindowsGenericError,
        FlashError::WindowsError(text)@ == FlashErrorView::WindowsError(text@),
        FlashError::Zbus(text)@ == FlashErrorView::Zbus(text@),
        IoErrorKind::NotFound@ == IoErrorKindView::NotFound,
        IoErrorKind::PermissionDenied@ == IoErrorKindView::PermissionDenied,
        IoErrorKind::ResourceBusy@ == IoErrorKindView::ResourceBusy,
        IoErrorKind::Other(text)@ == IoErrorKindView::Other(text@),
        result_view(Ok::<u64, FlashError>(n)) == Ok::<u64, FlashErrorView>(n),
        result_view(Err::<u64, FlashError>(FlashError::Io(io))) == Err::<u64, FlashErrorView>(
            FlashErrorView::Io(io.kind@, io.message@),
        ),
{
}

} // verus!
