//! Limits and errors of the guest runtime.

use vstd::prelude::*;

use crate::machine::VmError;
#[allow(unused_imports)]
use crate::text::decimal;
use crate::text::{decimal_text, size_text};

verus! {

pub const DEFAULT_MAX_INODES: usize = 4_096;

pub const DEFAULT_MAX_BYTES: usize = 16 * 1024 * 1024;

pub const DEFAULT_MAX_PROCESSES: usize = 128;

pub const DEFAULT_MAX_STEPS: usize = 100_000;

/// A guest process identifier. PIDs are scoped to one VM instance.
pub type Pid = u32;

/// Limits applied independently to one guest VM.
#[derive(Debug, Clone, Copy, PartialEq, Eq, Structural)]
pub struct ResourceLimits {
    pub max_inodes: usize,
    pub max_bytes: usize,
    pub max_processes: usize,
    pub max_steps: usize,
}

/// The limits of a guest VM that asks for no others.
pub open spec fn default_limits() -> ResourceLimits {
    ResourceLimits {
        max_inodes: DEFAULT_MAX_INODES,
        max_bytes: DEFAULT_MAX_BYTES,
        max_processes: DEFAULT_MAX_PROCESSES,
        max_steps: DEFAULT_MAX_STEPS,
    }
}

impl Default for ResourceLimits {
    fn default() -> (r: Self)
        ensures
            r == default_limits(),
    {
        ResourceLimits {
            max_inodes: DEFAULT_MAX_INODES,
            max_bytes: DEFAULT_MAX_BYTES,
            max_processes: DEFAULT_MAX_PROCESSES,
            max_steps: DEFAULT_MAX_STEPS,
        }
    }
}

/// Errors raised by the guest runtime or virtual filesystem.
#[derive(Debug, PartialEq, Eq)]
pub enum RuntimeError {
    InvalidPath { path: String, reason: String },
    NotFound { path: String },
    AlreadyExists { path: String },
    NotDirectory { path: String },
    IsDirectory { path: String },
    ParentMissing { path: String },
    InvalidUtf8 { path: String },
    InvalidLimits { resource: &'static str, minimum: usize, actual: usize },
    InvalidProgram { reason: String },
    InvalidSnapshot { reason: String },
    QuotaExceeded { resource: &'static str, limit: usize },
    ProcessNotFound { pid: Pid },
    ProcessLimitReached { limit: usize },
    InvalidParent { pid: Pid },
    ExecutionLimitExceeded { limit: usize },
    Vm(VmError),
}

/// What a [`RuntimeError`] says.
#[verifier::ext_equal]
pub enum Trouble {
    InvalidPath { path: Seq<char>, reason: Seq<char> },
    NotFound { path: Seq<char> },
    AlreadyExists { path: Seq<char> },
    NotDirectory { path: Seq<char> },
    IsDirectory { path: Seq<char> },
    ParentMissing { path: Seq<char> },
    InvalidUtf8 { path: Seq<char> },
    InvalidLimits { resource: &'static str, minimum: usize, actual: usize },
    InvalidProgram { reason: Seq<char> },
    InvalidSnapshot { reason: Seq<char> },
    QuotaExceeded { resource: &'static str, limit: usize },
    ProcessNotFound { pid: Pid },
    ProcessLimitReached { limit: usize },
    InvalidParent { pid: Pid },
    ExecutionLimitExceeded { limit: usize },
    Vm(VmError),
}

impl View for RuntimeError {
    type V = Trouble;

    open spec fn view(&self) -> Trouble {
        match self {
            RuntimeError::InvalidPath { path, reason } => Trouble::InvalidPath {
                path: path@,
                reason: reason@,
            },
            RuntimeError::NotFound { path } => Trouble::NotFound { path: path@ },
            RuntimeError::AlreadyExists { path } => Trouble::AlreadyExists { path: path@ },
            RuntimeError::NotDirectory { path } => Trouble::NotDirectory { path: path@ },
            RuntimeError::IsDirectory { path } => Trouble::IsDirectory { path: path@ },
            RuntimeError::ParentMissing { path } => Trouble::ParentMissing { path: path@ },
            RuntimeError::InvalidUtf8 { path } => Trouble::InvalidUtf8 { path: path@ },
            RuntimeError::InvalidLimits { resource, minimum, actual } => Trouble::InvalidLimits {
                resource: *resource,
                minimum: *minimum,
                actual: *actual,
            },
            RuntimeError::InvalidProgram { reason } => Trouble::InvalidProgram { reason: reason@ },
            RuntimeError::InvalidSnapshot { reason } => Trouble::InvalidSnapshot {
                reason: reason@,
            },
            RuntimeError::QuotaExceeded { resource, limit } => Trouble::QuotaExceeded {
                resource: *resource,
                limit: *limit,
            },
            RuntimeError::ProcessNotFound { pid } => Trouble::ProcessNotFound { pid: *pid },
            RuntimeError::ProcessLimitReached { limit } => Trouble::ProcessLimitReached {
                limit: *limit,
            },
            RuntimeError::InvalidParent { pid } => Trouble::InvalidParent { pid: *pid },
            RuntimeError::ExecutionLimitExceeded { limit } => Trouble::ExecutionLimitExceeded {
                limit: *limit,
            },
            RuntimeError::Vm(error) => Trouble::Vm(*error),
        }
    }
}

/// A VM error in the notation of its variants.
pub open spec fn vm_error_text(error: VmError) -> Seq<char> {
    match error {
        VmError::StackUnderflow { operation, needed, available } =>
            "StackUnderflow { operation: \""@ + operation@ + "\", needed: "@ + decimal(
                needed as nat,
            ) + ", available: "@ + decimal(available as nat) + " }"@,
        VmError::DivisionByZero => "DivisionByZero"@,
        VmError::IntegerOverflow { operation } => "IntegerOverflow { operation: \""@ + operation@
            + "\" }"@,
        VmError::MissingHalt => "MissingHalt"@,
        VmError::EmptyStack => "EmptyStack"@,
        VmError::InvalidJump { target } => "InvalidJump { target: "@ + decimal(target as nat)
            + " }"@,
        VmError::StepLimitExceeded { limit } => "StepLimitExceeded { limit: "@ + decimal(
            limit as nat,
        ) + " }"@,
        VmError::AlreadyHalted => "AlreadyHalted"@,
    }
}

impl VmError {
    /// The error in the notation of its variants.
    pub fn to_text(&self) -> (r: String)
        ensures
            r@ == vm_error_text(*self),
    {
        match self {
            VmError::StackUnderflow { operation, needed, available } => {
                let mut r = "StackUnderflow { operation: \"".to_owned();
                r.push_str(operation);
                r.push_str("\", needed: ");
                r.push_str(size_text(*needed).as_str());
                r.push_str(", available: ");
                r.push_str(size_text(*available).as_str());
                r.push_str(" }");
                r
            },
            VmError::DivisionByZero => "DivisionByZero".to_owned(),
            VmError::IntegerOverflow { operation } => {
                let mut r = "IntegerOverflow { operation: \"".to_owned();
                r.push_str(operation);
                r.push_str("\" }");
                r
            },
            VmError::MissingHalt => "MissingHalt".to_owned(),
            VmError::EmptyStack => "EmptyStack".to_owned(),
            VmError::InvalidJump { target } => {
                let mut r = "InvalidJump { target: ".to_owned();
                r.push_str(size_text(*target).as_str());
                r.push_str(" }");
                r
            },
            VmError::StepLimitExceeded { limit } => {
                let mut r = "StepLimitExceeded { limit: ".to_owned();
                r.push_str(size_text(*limit).as_str());
                r.push_str(" }");
                r
            },
            VmError::AlreadyHalted => "AlreadyHalted".to_owned(),
        }
    }

    /// A copy of the error.
    pub fn copied(&self) -> (r: VmError)
        ensures
            r == *self,
    {
        match self {
            VmError::StackUnderflow { operation, needed, available } => VmError::StackUnderflow {
                operation: *operation,
                needed: *needed,
                available: *available,
            },
            VmError::DivisionByZero => VmError::DivisionByZero,
            VmError::IntegerOverflow { operation } => VmError::IntegerOverflow {
                operation: *operation,
            },
            VmError::MissingHalt => VmError::MissingHalt,
            VmError::EmptyStack => VmError::EmptyStack,
            VmError::InvalidJump { target } => VmError::InvalidJump { target: *target },
            VmError::StepLimitExceeded { limit } => VmError::StepLimitExceeded { limit: *limit },
            VmError::AlreadyHalted => VmError::AlreadyHalted,
        }
    }
}

/// The message of a runtime error.
pub open spec fn trouble_text(trouble: Trouble) -> Seq<char> {
    match trouble {
        Trouble::InvalidPath { path, reason } => "invalid path '"@ + path + "': "@ + reason,
        Trouble::NotFound { path } => "path does not exist: "@ + path,
        Trouble::AlreadyExists { path } => "path already exists: "@ + path,
        Trouble::NotDirectory { path } => "not a directory: "@ + path,
        Trouble::IsDirectory { path } => "is a directory: "@ + path,
        Trouble::ParentMissing { path } => "parent directory is missing: "@ + path,
        Trouble::InvalidUtf8 { path } => "file is not valid UTF-8: "@ + path,
        Trouble::InvalidLimits { resource, minimum, actual } => "invalid "@ + resource@
            + " limit: minimum="@ + decimal(minimum as nat) + " actual="@ + decimal(actual as nat),
        Trouble::InvalidProgram { reason } => "invalid guest program: "@ + reason,
        Trouble::InvalidSnapshot { reason } => "invalid VM snapshot: "@ + reason,
        Trouble::QuotaExceeded { resource, limit } => "guest "@ + resource@
            + " quota exceeded: limit="@ + decimal(limit as nat),
        Trouble::ProcessNotFound { pid } => "process does not exist: "@ + decimal(pid as nat),
        Trouble::ProcessLimitReached { limit } => "guest process quota exceeded: limit="@ + decimal(
            limit as nat,
        ),
        Trouble::InvalidParent { pid } => "parent process does not exist: "@ + decimal(pid as nat),
        Trouble::ExecutionLimitExceeded { limit } => "guest execution limit exceeded: limit="@
            + decimal(limit as nat),
        Trouble::Vm(error) => "guest VM error: "@ + vm_error_text(error),
    }
}

/// `label` followed by `rest`.
pub fn labelled(label: &str, rest: &str) -> (r: String)
    ensures
        r@ == label@ + rest@,
{
    let mut r = label.to_owned();
    r.push_str(rest);
    r
}

impl RuntimeError {
    /// The message of the error.
    pub fn to_text(&self) -> (r: String)
        ensures
            r@ == trouble_text(self@),
    {
        match self {
            RuntimeError::InvalidPath { path, reason } => {
                let mut r = labelled("invalid path '", path.as_str());
                r.push_str("': ");
                r.push_str(reason.as_str());
                r
            },
            RuntimeError::NotFound { path } => labelled("path does not exist: ", path.as_str()),
            RuntimeError::AlreadyExists { path } => labelled(
                "path already exists: ",
                path.as_str(),
            ),
            RuntimeError::NotDirectory { path } => labelled("not a directory: ", path.as_str()),
            RuntimeError::IsDirectory { path } => labelled("is a directory: ", path.as_str()),
            RuntimeError::ParentMissing { path } => labelled(
                "parent directory is missing: ",
                path.as_str(),
            ),
            RuntimeError::InvalidUtf8 { path } => labelled(
                "file is not valid UTF-8: ",
                path.as_str(),
            ),
            RuntimeError::InvalidLimits { resource, minimum, actual } => {
                let mut r = labelled("invalid ", resource);
                r.push_str(" limit: minimum=");
                r.push_str(size_text(*minimum).as_str());
                r.push_str(" actual=");
                r.push_str(size_text(*actual).as_str());
                r
            },
            RuntimeError::InvalidProgram { reason } => labelled(
                "invalid guest program: ",
                reason.as_str(),
            ),
            RuntimeError::InvalidSnapshot { reason } => labelled(
                "invalid VM snapshot: ",
                reason.as_str(),
            ),
            RuntimeError::QuotaExceeded { resource, limit } => {
                let mut r = labelled("guest ", resource);
                r.push_str(" quota exceeded: limit=");
                r.push_str(size_text(*limit).as_str());
                r
            },
            RuntimeError::ProcessNotFound { pid } => labelled(
                "process does not exist: ",
                decimal_text(*pid as u64).as_str(),
            ),
            RuntimeError::ProcessLimitReached { limit } => labelled(
                "guest process quota exceeded: limit=",
                size_text(*limit).as_str(),
            ),
            RuntimeError::InvalidParent { pid } => labelled(
                "parent process does not exist: ",
                decimal_text(*pid as u64).as_str(),
            ),
            RuntimeError::ExecutionLimitExceeded { limit } => labelled(
                "guest execution limit exceeded: limit=",
                size_text(*limit).as_str(),
            ),
            RuntimeError::Vm(error) => labelled("guest VM error: ", error.to_text().as_str()),
        }
    }
}

} // verus!
