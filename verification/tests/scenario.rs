use actflow_agent_sdk::context::Context;
use actflow_agent_sdk::invocation::{AgentUpdate, Invocation, RunRequest, Step};
use actflow_agent_sdk::output::{AgentOutput, WireAgentOutput};
use actflow_agent_sdk::relay::LOG_CAPACITY;
use actflow_agent_sdk::status::NodeExecutionStatus;
use actflow_agent_sdk::value::{StructuredValue, WireKind, WireValue};

fn wire(kind: WireKind) -> WireValue {
    WireValue { kind: Some(kind) }
}

fn operand(inputs: &StructuredValue, key: &str) -> Option<f64> {
    match inputs.get(key) {
        Some(StructuredValue::Number(bits)) => Some(f64::from_bits(*bits)),
        _ => None,
    }
}

/// An agent that does arithmetic and checks its inputs.
fn calculator(inputs: &StructuredValue, log: &mut Invocation) -> AgentOutput {
    log.send("Calculator agent started".to_string());
    let op = match inputs.get("operation") {
        Some(StructuredValue::String(op)) => op.clone(),
        _ => return AgentOutput::failed("Missing 'operation' field"),
    };
    let a = match operand(inputs, "a") {
        Some(a) => a,
        None => return AgentOutput::failed("Missing or invalid 'a' field"),
    };
    let b = match operand(inputs, "b") {
        Some(b) => b,
        None => return AgentOutput::failed("Missing or invalid 'b' field"),
    };
    log.send(format!("Calculating: {} {} {}", a, op, b));
    let result = match op.as_str() {
        "add" | "+" => a + b,
        "sub" | "-" => a - b,
        "mul" | "*" => a * b,
        "div" | "/" => {
            if b == 0.0 {
                return AgentOutput::exception("Division by zero");
            }
            a / b
        }
        _ => return AgentOutput::failed(&format!("Unknown operation: {}", op)),
    };
    log.send(format!("Result: {}", result));
    AgentOutput::success(StructuredValue::Object(vec![(
        "result".to_string(),
        StructuredValue::Number(result.to_bits()),
    )]))
}

/// Runs one request to the end of its stream.
fn serve(request: &RunRequest) -> Vec<AgentUpdate> {
    let args = request.decode();
    assert_eq!(args.ctx, Context::default());
    let mut inv = Invocation::new(LOG_CAPACITY);
    let output = calculator(&args.inputs, &mut inv);
    inv.finish(output);
    let mut frames = Vec::new();
    loop {
        match inv.next_frame() {
            Step::Frame(frame) => frames.push(frame),
            Step::Idle => panic!("a finished run cannot be idle"),
            Step::Done => return frames,
        }
    }
}

fn request(operation: &str, a: f64, b: f64) -> RunRequest {
    RunRequest {
        nid: "n1".to_string(),
        ctx: None,
        inputs: Some(wire(WireKind::StructValue(vec![
            ("operation".to_string(), wire(WireKind::StringValue(operation.to_string()))),
            ("a".to_string(), wire(WireKind::NumberValue(a.to_bits()))),
            ("b".to_string(), wire(WireKind::NumberValue(b.to_bits()))),
        ]))),
    }
}

#[test]
fn division_by_zero_ends_in_an_exception_frame() {
    let frames = serve(&request("div", 10.0, 0.0));
    assert_eq!(
        frames,
        vec![
            AgentUpdate::Log("Calculator agent started".to_string()),
            AgentUpdate::Log("Calculating: 10 div 0".to_string()),
            AgentUpdate::Output(WireAgentOutput {
                status: NodeExecutionStatus::Exception,
                outputs: Some(wire(WireKind::NullValue(0))),
                error: String::new(),
                exception: "Division by zero".to_string(),
            }),
        ]
    );
}

#[test]
fn division_gives_a_result_frame_last() {
    let frames = serve(&request("div", 10.0, 4.0));
    assert_eq!(frames.len(), 4);
    assert_eq!(frames[2], AgentUpdate::Log("Result: 2.5".to_string()));
    assert_eq!(
        frames[3],
        AgentUpdate::Output(WireAgentOutput {
            status: NodeExecutionStatus::Succeeded,
            outputs: Some(wire(WireKind::StructValue(vec![(
                "result".to_string(),
                wire(WireKind::NumberValue(2.5f64.to_bits())),
            )]))),
            error: String::new(),
            exception: String::new(),
        })
    );
}

#[test]
fn missing_inputs_end_in_a_failure_frame() {
    let req = RunRequest { nid: "n1".to_string(), ctx: None, inputs: None };
    let frames = serve(&req);
    assert_eq!(
        frames,
        vec![
            AgentUpdate::Log("Calculator agent started".to_string()),
            AgentUpdate::Output(WireAgentOutput {
                status: NodeExecutionStatus::Failed,
                outputs: Some(wire(WireKind::NullValue(0))),
                error: "Missing 'operation' field".to_string(),
                exception: String::new(),
            }),
        ]
    );
}

#[test]
fn unknown_operation_ends_in_a_failure_frame() {
    let frames = serve(&request("pow", 2.0, 3.0));
    assert_eq!(
        frames.last(),
        Some(&AgentUpdate::Output(WireAgentOutput {
            status: NodeExecutionStatus::Failed,
            outputs: Some(wire(WireKind::NullValue(0))),
            error: "Unknown operation: pow".to_string(),
            exception: String::new(),
        }))
    );
}
