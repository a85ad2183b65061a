//! Why an operation on a sandbox fails.

use vstd::prelude::*;

verus! {

#[derive(Debug)]
pub enum RuntimeError {
    NotFound,
    Conflict(String),
    Invalid(String),
    SecretsCannotBeSnapshotted,
    Backend(String),
}

/// The mathematical counterpart of [`RuntimeError`].
pub enum RuntimeErrorView {
    NotFound,
    Conflict(Seq<char>),
    Invalid(Seq<char>),
    SecretsCannotBeSnapshotted,
    Backend(Seq<char>),
}

impl View for RuntimeError {
    type V = RuntimeErrorView;

    open spec fn view(&self) -> RuntimeErrorView {
        match self {
            RuntimeError::NotFound => RuntimeErrorView::NotFound,
            RuntimeError::Conflict(text) => RuntimeErrorView::Conflict(text@),
            RuntimeError::Invalid(text) => RuntimeErrorView::Invalid(text@),
            RuntimeError::SecretsCannotBeSnapshotted => {
                RuntimeErrorView::SecretsCannotBeSnapshotted
            },
            RuntimeError::Backend(text) => RuntimeErrorView::Backend(text@),
        }
    }
}

pub open spec fn error_code(error: RuntimeErrorView) -> Seq<char> {
    match error {
        RuntimeErrorView::NotFound => "SANDBOX_NOT_FOUND"@,
        RuntimeErrorView::Conflict(_) => "STATE_CONFLICT"@,
        RuntimeErrorView::Invalid(_) => "INVALID_INPUT"@,
        RuntimeErrorView::SecretsCannotBeSnapshotted => "SECRETS_CANNOT_BE_SNAPSHOTTED"@,
        RuntimeErrorView::Backend(_) => "BACKEND_ERROR"@,
    }
}

/// The error in words.
pub open spec fn error_text(error: RuntimeErrorView) -> Seq<char> {
    match error {
        RuntimeErrorView::NotFound => "sandbox was not found"@,
        RuntimeErrorView::Conflict(text) => text,
        RuntimeErrorView::Invalid(text) => text,
        RuntimeErrorView::SecretsCannotBeSnapshotted => {
            "sandbox contains secrets and cannot be paused or snapshotted"@
        },
        RuntimeErrorView::Backend(text) => text,
    }
}

impl RuntimeError {
    pub fn code(&self) -> (r: &'static str)
        ensures
            r@ == error_code(self@),
    {
        match self {
            RuntimeError::NotFound => "SANDBOX_NOT_FOUND",
            RuntimeError::Conflict(_) => "STATE_CONFLICT",
            RuntimeError::Invalid(_) => "INVALID_INPUT",
            RuntimeError::SecretsCannotBeSnapshotted => "SECRETS_CANNOT_BE_SNAPSHOTTED",
            RuntimeError::Backend(_) => "BACKEND_ERROR",
        }
    }

    pub fn message(&self) -> (r: String)
        ensures
            r@ == error_text(self@),
    {
        match self {
            RuntimeError::NotFound => "sandbox was not found".to_owned(),
            RuntimeError::Conflict(text) => text.clone(),
            RuntimeError::Invalid(text) => text.clone(),
            RuntimeError::SecretsCannotBeSnapshotted => {
                "sandbox contains secrets and cannot be paused or snapshotted".to_owned()
            },
            RuntimeError::Backend(text) => text.clone(),
        }
    }

    /// The status with which the error is reported over HTTP.
    pub fn status(&self) -> (r: u16)
        ensures
            r == error_status(self@),
    {
        match self {
            RuntimeError::NotFound => 404,
            RuntimeError::Conflict(_) => 409,
            RuntimeError::Invalid(_) => 400,
            RuntimeError::SecretsCannotBeSnapshotted => 409,
            RuntimeError::Backend(_) => 500,
        }
    }
}

pub open spec fn error_status(error: RuntimeErrorView) -> u16 {
    match error {
        RuntimeErrorView::NotFound => 404,
        RuntimeErrorView::Conflict(_) => 409,
        RuntimeErrorView::Invalid(_) => 400,
        RuntimeErrorView::SecretsCannotBeSnapshotted => 409,
        RuntimeErrorView::Backend(_) => 500,
    }
}

} // verus!
