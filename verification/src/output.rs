//! The outcome of one invocation and its wire form.

use crate::status::{wire_status, ExecutionStatus, NodeExecutionStatus};
use crate::value::{encode, encode_model, StructuredValue, ValueModel, WireModel, WireValue};
use vstd::prelude::*;

verus! {

/// Result of one agent run. The three helpers fill exactly one of output,
/// error and exception; the fields are public, and a caller that sets them
/// directly may fill more.
#[derive(Debug, Clone, PartialEq)]
pub struct AgentOutput {
    /// Execution status.
    pub status: ExecutionStatus,
    /// Output data; meaningful when the status is `Succeeded`.
    pub outputs: StructuredValue,
    /// Error message; meaningful when the status is `Failed`.
    pub error: String,
    /// Exception message; meaningful when the status is `Exception`.
    pub exception: String,
}

/// The result as the final frame of a stream carries it.
#[derive(Debug, PartialEq)]
pub struct WireAgentOutput {
    pub status: NodeExecutionStatus,
    pub outputs: Option<WireValue>,
    pub error: String,
    pub exception: String,
}

/// Mathematical content of an [`AgentOutput`].
pub ghost struct OutputModel {
    pub status: ExecutionStatus,
    pub outputs: ValueModel,
    pub error: Seq<char>,
    pub exception: Seq<char>,
}

/// Mathematical content of a [`WireAgentOutput`].
pub ghost struct WireOutputModel {
    pub status: NodeExecutionStatus,
    pub outputs: Option<WireModel>,
    pub error: Seq<char>,
    pub exception: Seq<char>,
}

/// The wire form of a result: the status variant for variant, the output
/// encoded and always present, both messages unchanged.
pub open spec fn encode_output(o: OutputModel) -> WireOutputModel {
    WireOutputModel {
        status: wire_status(o.status),
        outputs: Some(encode_model(o.outputs)),
        error: o.error,
        exception: o.exception,
    }
}

impl AgentOutput {
    pub open spec fn model(self) -> OutputModel {
        OutputModel {
            status: self.status,
            outputs: self.outputs.model(),
            error: self.error@,
            exception: self.exception@,
        }
    }

    /// A successful result that carries `outputs`.
    pub fn success(outputs: StructuredValue) -> (out: AgentOutput)
        ensures
            out.model() == (OutputModel {
                status: ExecutionStatus::Succeeded,
                outputs: outputs.model(),
                error: Seq::empty(),
                exception: Seq::empty(),
            }),
            out.outputs == outputs,
    {
        AgentOutput {
            status: ExecutionStatus::Succeeded,
            outputs,
            error: String::new(),
            exception: String::new(),
        }
    }

    /// A failed result with its error message.
    pub fn failed(error: &str) -> (out: AgentOutput)
        ensures
            out.model() == (OutputModel {
                status: ExecutionStatus::Failed,
                outputs: ValueModel::Null,
                error: error@,
                exception: Seq::empty(),
            }),
    {
        AgentOutput {
            status: ExecutionStatus::Failed,
            outputs: StructuredValue::Null,
            error: error.to_owned(),
            exception: String::new(),
        }
    }

    /// An exceptional result with its exception message.
    pub fn exception(exception: &str) -> (out: AgentOutput)
        ensures
            out.model() == (OutputModel {
                status: ExecutionStatus::Exception,
                outputs: ValueModel::Null,
                error: Seq::empty(),
                exception: exception@,
            }),
    {
        AgentOutput {
            status: ExecutionStatus::Exception,
            outputs: StructuredValue::Null,
            error: String::new(),
            exception: exception.to_owned(),
        }
    }

    /// The wire form of this result.
    pub fn to_wire(&self) -> (out: WireAgentOutput)
        ensures
            out.model() == encode_output(self.model()),
    {
        WireAgentOutput {
            status: NodeExecutionStatus::from(self.status),
            outputs: Some(encode(&self.outputs)),
            error: self.error.clone(),
            exception: self.exception.clone(),
        }
    }
}

impl WireAgentOutput {
    pub open spec fn model(self) -> WireOutputModel {
        WireOutputModel {
            status: self.status,
            outputs: match self.outputs {
                Some(v) => Some(v.model()),
                None => None,
            },
            error: self.error@,
            exception: self.exception@,
        }
    }
}

} // verus!
