//! The failures a conversion run can end in.

use vstd::prelude::*;

verus! {

/// Why a run could not produce its output.
#[derive(Debug, PartialEq, Eq)]
pub enum CLIError {
    /// The input path does not lead to a readable file.
    FileNotFound,
    /// The input is not a legacy reading list; holds the decoder's diagnostic.
    InvalidCBL(String),
    /// The output could not be created or written; holds the cause.
    FileWriteError(String),
}

/// The result of a step that can fail with a [`CLIError`].
pub type CLIResult<T> = Result<T, CLIError>;

/// The mathematical value of a [`CLIError`].
pub enum CLIErrorView {
    FileNotFound,
    InvalidCBL(Seq<char>),
    FileWriteError(Seq<char>),
}

impl DeepView for CLIError {
    type V = CLIErrorView;

    open spec fn deep_view(&self) -> CLIErrorView {
        match self {
            CLIError::FileNotFound => CLIErrorView::FileNotFound,
            CLIError::InvalidCBL(detail) => CLIErrorView::InvalidCBL(detail@),
            CLIError::FileWriteError(cause) => CLIErrorView::FileWriteError(cause@),
        }
    }
}

impl View for CLIError {
    type V = CLIErrorView;

    open spec fn view(&self) -> CLIErrorView {
        self.deep_view()
    }
}

/// The outcome of a step is the one expected: a value with the expected
/// mathematical value, or the failure that carries the expected diagnostic.
pub open spec fn fulfils<T: DeepView>(
    outcome: Result<T, CLIError>,
    expected: Result<T::V, Seq<char>>,
) -> bool {
    match outcome {
        Ok(value) => expected == Ok::<T::V, Seq<char>>(value.deep_view()),
        Err(error) => expected matches Err(message) && error@ == CLIErrorView::InvalidCBL(
            message,
        ),
    }
}

/// The sentence shown to the user for each failure.
pub open spec fn error_message(error: CLIErrorView) -> Seq<char> {
    match error {
        CLIErrorView::FileNotFound => "The provided file could not be found on disk"@,
        CLIErrorView::InvalidCBL(detail) =>
            "The provided file is not a valid CBL file, or is malformed: "@ + detail,
        CLIErrorView::FileWriteError(_) => "Failed to write to the provided file path"@,
    }
}

impl CLIError {
    /// The human-readable diagnostic for this failure.
    pub fn message(&self) -> (text: String)
        ensures
            text@ == error_message(self@),
    {
        match self {
            CLIError::FileNotFound => String::from_str(
                "The provided file could not be found on disk",
            ),
            CLIError::InvalidCBL(detail) => String::from_str(
                "The provided file is not a valid CBL file, or is malformed: ",
            ).concat(detail.as_str()),
            CLIError::FileWriteError(_) => String::from_str(
                "Failed to write to the provided file path",
            ),
        }
    }
}

} // verus!
