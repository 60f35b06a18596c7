//! The failures that the client reports.
//!
//! Every failure names what it is about: the file, the operation, the object or the run.

use vstd::prelude::*;

verus! {

/// Why an operation of the client failed.
#[derive(Debug, PartialEq, Eq)]
pub enum ClientError {
    /// There is no local file at this path.
    FileMissing(String),
    /// This path of a local file has no file name.
    InvalidFilename(String),
    /// A call to a service failed; with the operation, as in `upload file`, and what the
    /// service said.
    Transport { operation: String, detail: String },
    /// The bucket holds no object under this key.
    ArtifactNotFound { bucket: String, key: String },
    /// The object should hold JSON and holds something else; with the message of the reader.
    MalformedJson { bucket: String, key: String, detail: String },
    /// The transcript object is JSON, but not of the expected shape.
    InvalidTranscriptFormat { bucket: String, key: String },
    /// The report object is not UTF-8 text.
    InvalidReportEncoding { bucket: String, key: String },
    /// The run has failed; with the error that the service recorded, if any.
    ExecutionFailed { execution_arn: String, error: Option<String> },
    /// The service reported a status of the run that the client does not know.
    UnexpectedStatus { execution_arn: String, status: String },
    /// No listed run was started for this key.
    NoExecutionFound(String),
}

impl ClientError {
    /// A copy of this error.
    pub fn duplicate(&self) -> (r: ClientError)
        ensures
            r == *self,
    {
        match self {
            ClientError::FileMissing(path) => ClientError::FileMissing(path.clone()),
            ClientError::InvalidFilename(path) => ClientError::InvalidFilename(path.clone()),
            ClientError::Transport { operation, detail } => ClientError::Transport {
                operation: operation.clone(),
                detail: detail.clone(),
            },
            ClientError::ArtifactNotFound { bucket, key } => ClientError::ArtifactNotFound {
                bucket: bucket.clone(),
                key: key.clone(),
            },
            ClientError::MalformedJson { bucket, key, detail } => ClientError::MalformedJson {
                bucket: bucket.clone(),
                key: key.clone(),
                detail: detail.clone(),
            },
            ClientError::InvalidTranscriptFormat { bucket, key } => ClientError::InvalidTranscriptFormat {
                bucket: bucket.clone(),
                key: key.clone(),
            },
            ClientError::InvalidReportEncoding { bucket, key } => ClientError::InvalidReportEncoding {
                bucket: bucket.clone(),
                key: key.clone(),
            },
            ClientError::ExecutionFailed { execution_arn, error } => match error {
                Some(text) => ClientError::ExecutionFailed {
                    execution_arn: execution_arn.clone(),
                    error: Some(text.clone()),
                },
                None => ClientError::ExecutionFailed {
                    execution_arn: execution_arn.clone(),
                    error: None,
                },
            },
            ClientError::UnexpectedStatus { execution_arn, status } => ClientError::UnexpectedStatus {
                execution_arn: execution_arn.clone(),
                status: status.clone(),
            },
            ClientError::NoExecutionFound(key) => ClientError::NoExecutionFound(key.clone()),
        }
    }

    /// The message of this error.
    pub open spec fn message_text(self) -> Seq<char> {
        match self {
            ClientError::FileMissing(path) => "File does not exist: "@ + path@,
            ClientError::InvalidFilename(path) => "Invalid filename: "@ + path@,
            ClientError::Transport { operation, detail } => "Failed to "@ + operation@ + ": "@
                + detail@,
            ClientError::ArtifactNotFound { bucket, key } => "No object found: "@ + bucket@ + "/"@
                + key@,
            ClientError::MalformedJson { bucket, key, detail } => "Invalid JSON in "@ + bucket@
                + "/"@ + key@ + ": "@ + detail@,
            ClientError::InvalidTranscriptFormat { bucket, key } => "Invalid transcript format: "@
                + bucket@ + "/"@ + key@,
            ClientError::InvalidReportEncoding { bucket, key } => "Invalid report encoding: "@
                + bucket@ + "/"@ + key@,
            ClientError::ExecutionFailed { execution_arn, error } => match error {
                Some(text) => "Execution failed: "@ + execution_arn@ + ": "@ + text@,
                None => "Execution failed: "@ + execution_arn@,
            },
            ClientError::UnexpectedStatus { execution_arn, status } => "Unexpected status: "@
                + status@ + " for "@ + execution_arn@,
            ClientError::NoExecutionFound(key) => "No execution found for file: "@ + key@,
        }
    }

    /// The message of this error, for the user.
    pub fn message(&self) -> (r: String)
        ensures
            r@ == self.message_text(),
    {
        match self {
            ClientError::FileMissing(path) => String::from_str("File does not exist: ").concat(
                path.as_str(),
            ),
            ClientError::InvalidFilename(path) => String::from_str("Invalid filename: ").concat(
                path.as_str(),
            ),
            ClientError::Transport { operation, detail } => String::from_str("Failed to ").concat(
                operation.as_str(),
            ).concat(": ").concat(detail.as_str()),
            ClientError::ArtifactNotFound { bucket, key } => String::from_str(
                "No object found: ",
            ).concat(bucket.as_str()).concat("/").concat(key.as_str()),
            ClientError::MalformedJson { bucket, key, detail } => String::from_str(
                "Invalid JSON in ",
            ).concat(bucket.as_str()).concat("/").concat(key.as_str()).concat(": ").concat(
                detail.as_str(),
            ),
            ClientError::InvalidTranscriptFormat { bucket, key } => String::from_str(
                "Invalid transcript format: ",
            ).concat(bucket.as_str()).concat("/").concat(key.as_str()),
            ClientError::InvalidReportEncoding { bucket, key } => String::from_str(
                "Invalid report encoding: ",
            ).concat(bucket.as_str()).concat("/").concat(key.as_str()),
            ClientError::ExecutionFailed { execution_arn, error } => match error {
                Some(text) => String::from_str("Execution failed: ").concat(
                    execution_arn.as_str(),
                ).concat(": ").concat(text.as_str()),
                None => String::from_str("Execution failed: ").concat(execution_arn.as_str()),
            },
            ClientError::UnexpectedStatus { execution_arn, status } => String::from_str(
                "Unexpected status: ",
            ).concat(status.as_str()).concat(" for ").concat(execution_arn.as_str()),
            ClientError::NoExecutionFound(key) => String::from_str(
                "No execution found for file: ",
            ).concat(key.as_str()),
        }
    }
}

} // verus!
