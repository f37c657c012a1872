use daimonos_session::session_protocol::{
    has_capability, is_false, validate_next_sequence, ApprovalDecision, ApprovalRequest,
    ClientCapability, ClientInfo, ClientKind, ClientMessage, ContextBudgetError, ContextUsage, ProtocolLimits,
    ProtocolValidationError, RuntimeChoice, RuntimeOption, RuntimeOptionSpec, RuntimeValue,
    SequenceError, PROTOCOL_VERSION,
};

#[test]
fn capability_set_is_explicit_not_role_implied() {
    let granted = vec![ClientCapability::Observe, ClientCapability::Prompt];
    assert!(has_capability(&granted, ClientCapability::Observe));
    assert!(has_capability(&granted, ClientCapability::Prompt));
    assert!(!has_capability(&granted, ClientCapability::Configure));
    assert!(!has_capability(&granted, ClientCapability::Interrupt));
    assert!(!has_capability(&granted, ClientCapability::Stop));
    assert!(!has_capability(&granted, ClientCapability::ApproveOnce));
    assert!(!has_capability(&granted, ClientCapability::ApproveAlways));
}

#[test]
fn context_usage_uses_effective_input_budget_and_clamps() {
    let usage = ContextUsage::new(100, Some(200), 20, Some(160));
    assert_eq!(usage.effective_input_budget, Some(180));
    assert_eq!(usage.utilization_basis_points, Some(5_555));
    assert_eq!(usage.compaction_high_water_tokens, Some(160));
    assert!(!usage.estimated);
    let estimated = usage.clone().mark_estimated();
    assert!(estimated.estimated);

    let over = ContextUsage::new(300, Some(200), 20, None);
    assert_eq!(over.utilization_basis_points, Some(10_000));

    let unknown = ContextUsage::new(100, None, 20, None);
    assert_eq!(unknown.effective_input_budget, None);
    assert_eq!(unknown.utilization_basis_points, None);
    assert_eq!(unknown.budget_error, None);

    let invalid = ContextUsage::new(100, Some(20), 20, None);
    assert_eq!(invalid.effective_input_budget, None);
    assert_eq!(
        invalid.budget_error,
        Some(ContextBudgetError::OutputReservationNotBelowWindow)
    );
}

#[test]
fn runtime_option_validates_select_boolean_and_integer_values() {
    let mode = RuntimeOption::select(
        "mode",
        "Mode",
        RuntimeValue::String("agent".to_string()),
        vec![
            RuntimeChoice::new("agent", "Agent"),
            RuntimeChoice::new("plan", "Plan"),
            RuntimeChoice::new("ask", "Ask"),
        ],
    );
    assert!(mode.accepts(&RuntimeValue::String("plan".to_string())));
    assert!(!mode.accepts(&RuntimeValue::String("unknown".to_string())));
    assert!(!mode.accepts(&RuntimeValue::Bool(true)));

    let toggle = RuntimeOption::boolean("fast", "Fast", RuntimeValue::Bool(false));
    assert!(toggle.accepts(&RuntimeValue::Bool(true)));
    assert!(!toggle.accepts(&RuntimeValue::Integer(1)));

    let budget = RuntimeOption::integer(
        "context_budget",
        "Context budget",
        RuntimeValue::Integer(100_000),
        16_000,
        200_000,
        1_000,
    );
    assert!(budget.accepts(&RuntimeValue::Integer(200_000)));
    assert!(!budget.accepts(&RuntimeValue::Integer(200_001)));
    assert!(!budget.accepts(&RuntimeValue::Integer(16_500)));
}

#[test]
fn unassigned_approval_request_makes_broker_owned_id_explicit() {
    let request = ApprovalRequest::unassigned("tool-1", "exec", "run tests", true);
    assert!(request.id.is_empty());
    assert_eq!(request.tool_call_id, "tool-1");
    assert_eq!(request.tool, "exec");
    assert!(request.allow_always_available);
}

#[test]
fn event_sequences_must_strictly_advance() {
    assert!(validate_next_sequence(None, 1).is_ok());
    assert!(validate_next_sequence(Some(7), 8).is_ok());
    assert_eq!(
        validate_next_sequence(Some(7), 7),
        Err(SequenceError::NotIncreasing {
            previous: 7,
            next: 7,
        })
    );
    assert_eq!(
        validate_next_sequence(Some(7), 6),
        Err(SequenceError::NotIncreasing {
            previous: 7,
            next: 6,
        })
    );
}

#[test]
fn protocol_limits_reject_oversized_untrusted_fields() {
    let limits = ProtocolLimits {
        max_frame_bytes: 1_024,
        max_prompt_bytes: 8,
        max_label_bytes: 6,
        max_identifier_bytes: 4,
        max_ticket_bytes: 6,
        max_runtime_value_bytes: 5,
        max_capabilities: 3,
    };
    assert!(limits
        .validate_client_message(&ClientMessage::Prompt {
            request_id: "p1".to_string(),
            text: "12345678".to_string(),
        })
        .is_ok());
    assert_eq!(
        limits.validate_client_message(&ClientMessage::Prompt {
            request_id: "p1".to_string(),
            text: "123456789".to_string(),
        }),
        Err(ProtocolValidationError::FieldTooLarge {
            field: "prompt.text",
            max_bytes: 8,
        })
    );
    assert_eq!(
        limits.validate_client_message(&ClientMessage::Attach {
            protocol_version: PROTOCOL_VERSION,
            session_id: None,
            ticket: None,
            client: ClientInfo {
                id: "id".to_string(),
                kind: ClientKind::Headless,
                label: "1234567".to_string(),
            },
            requested_capabilities: vec![ClientCapability::Observe],
        }),
        Err(ProtocolValidationError::FieldTooLarge {
            field: "attach.client.label",
            max_bytes: 6,
        })
    );
}

#[test]
fn protocol_limits_cover_all_untrusted_identifiers_tickets_and_values() {
    let limits = ProtocolLimits {
        max_frame_bytes: 1_024,
        max_prompt_bytes: 64,
        max_label_bytes: 64,
        max_identifier_bytes: 4,
        max_ticket_bytes: 6,
        max_runtime_value_bytes: 5,
        max_capabilities: 2,
    };
    let too_large = |field| ProtocolValidationError::FieldTooLarge {
        field,
        max_bytes: 4,
    };

    assert_eq!(
        limits.validate_client_message(&ClientMessage::Prompt {
            request_id: "12345".to_string(),
            text: "ok".to_string(),
        }),
        Err(too_large("prompt.request_id"))
    );
    assert_eq!(
        limits.validate_client_message(&ClientMessage::ApprovalResponse {
            approval_id: "12345".to_string(),
            decision: ApprovalDecision::Deny,
        }),
        Err(too_large("approval_response.approval_id"))
    );
    assert_eq!(
        limits.validate_client_message(&ClientMessage::Interrupt {
            request_id: Some("12345".to_string()),
        }),
        Err(too_large("interrupt.request_id"))
    );
    assert_eq!(
        limits.validate_client_message(&ClientMessage::SetConfig {
            request_id: None,
            config_id: "12345".to_string(),
            value: RuntimeValue::Bool(true),
        }),
        Err(too_large("set_config.config_id"))
    );
    assert_eq!(
        limits.validate_client_message(&ClientMessage::SetConfig {
            request_id: None,
            config_id: "mode".to_string(),
            value: RuntimeValue::String("123456".to_string()),
        }),
        Err(ProtocolValidationError::FieldTooLarge {
            field: "set_config.value",
            max_bytes: 5,
        })
    );
    assert_eq!(
        limits.validate_client_message(&ClientMessage::Attach {
            protocol_version: PROTOCOL_VERSION,
            session_id: None,
            ticket: Some("1234567".to_string()),
            client: ClientInfo {
                id: "id".to_string(),
                kind: ClientKind::Android,
                label: "phone".to_string(),
            },
            requested_capabilities: vec![ClientCapability::Observe],
        }),
        Err(ProtocolValidationError::FieldTooLarge {
            field: "attach.ticket",
            max_bytes: 6,
        })
    );
    assert_eq!(
        limits.validate_client_message(&ClientMessage::Attach {
            protocol_version: PROTOCOL_VERSION,
            session_id: Some("12345".to_string()),
            ticket: None,
            client: ClientInfo {
                id: "id".to_string(),
                kind: ClientKind::Android,
                label: "phone".to_string(),
            },
            requested_capabilities: vec![ClientCapability::Observe],
        }),
        Err(too_large("attach.session_id"))
    );
    assert_eq!(
        limits.validate_client_message(&ClientMessage::Attach {
            protocol_version: PROTOCOL_VERSION,
            session_id: None,
            ticket: None,
            client: ClientInfo {
                id: "12345".to_string(),
                kind: ClientKind::Android,
                label: "phone".to_string(),
            },
            requested_capabilities: vec![ClientCapability::Observe],
        }),
        Err(too_large("attach.client.id"))
    );
    assert_eq!(
        limits.validate_client_message(&ClientMessage::Attach {
            protocol_version: PROTOCOL_VERSION,
            session_id: None,
            ticket: None,
            client: ClientInfo {
                id: "id".to_string(),
                kind: ClientKind::Android,
                label: "phone".to_string(),
            },
            requested_capabilities: vec![
                ClientCapability::Observe,
                ClientCapability::Prompt,
                ClientCapability::Interrupt,
            ],
        }),
        Err(ProtocolValidationError::TooManyCapabilities { max: 2 })
    );
}

fn integer_option(value: i64, min: i64, max: i64, step: i64) -> RuntimeOption {
    RuntimeOption {
        id: "budget".to_string(),
        label: "Budget".to_string(),
        value: RuntimeValue::Integer(value),
        default_value: RuntimeValue::Integer(value),
        spec: RuntimeOptionSpec::Integer { min, max, step },
        mutable_while_running: false,
        help: None,
    }
}

#[test]
fn malformed_integer_option_never_panics_or_overflows() {
    let zero_step = integer_option(0, i64::MIN, i64::MAX, 0);
    assert!(!zero_step.accepts(&RuntimeValue::Integer(0)));

    let huge_step = integer_option(i64::MIN, i64::MIN, i64::MAX, 2);
    assert!(!huge_step.accepts(&RuntimeValue::Integer(9223372036854775807_i64)));
}

#[test]
fn integer_option_raises_its_step_and_stays_in_range() {
    let option = RuntimeOption::integer("n", "N", RuntimeValue::Integer(3), 3, 9, 0);
    assert_eq!(option.spec, RuntimeOptionSpec::Integer { min: 3, max: 9, step: 1 });
    assert!(option.accepts(&RuntimeValue::Integer(4)));
    assert!(!option.accepts(&RuntimeValue::Integer(2)));
    assert!(!option.accepts(&RuntimeValue::Integer(10)));
}

#[test]
fn validation_reports_the_first_exceeded_field_in_order() {
    let limits = ProtocolLimits {
        max_frame_bytes: 1_024,
        max_prompt_bytes: 3,
        max_label_bytes: 3,
        max_identifier_bytes: 3,
        max_ticket_bytes: 3,
        max_runtime_value_bytes: 3,
        max_capabilities: 0,
    };
    let resume = ClientMessage::Resume {
        protocol_version: PROTOCOL_VERSION,
        session_id: "session".to_string(),
        last_seen_seq: 0,
        ticket: Some("ticket".to_string()),
        client: ClientInfo {
            id: "id".to_string(),
            kind: ClientKind::Browser,
            label: "tab".to_string(),
        },
        requested_capabilities: vec![ClientCapability::Observe],
    };
    let error = limits.validate_client_message(&resume).unwrap_err();
    assert_eq!(
        error,
        ProtocolValidationError::FieldTooLarge { field: "resume.session_id", max_bytes: 3 }
    );
    assert_eq!(error.message(), "resume.session_id exceeds 3 bytes");
    assert_eq!(
        ProtocolValidationError::TooManyCapabilities { max: 12 }.message(),
        "requested capabilities exceed limit 12"
    );
    for (message, field) in [
        (
            ClientMessage::StopSession { request_id: "1234".to_string() },
            "stop_session.request_id",
        ),
        (
            ClientMessage::ClearHistory { request_id: "1234".to_string() },
            "clear_history.request_id",
        ),
        (ClientMessage::GetUsage { request_id: "1234".to_string() }, "get_usage.request_id"),
        (
            ClientMessage::ListSessions {
                request_id: "123".to_string(),
                cursor: Some("1234".to_string()),
            },
            "list_sessions.cursor",
        ),
        (
            ClientMessage::SetConfig {
                request_id: Some("1234".to_string()),
                config_id: "12345".to_string(),
                value: RuntimeValue::Integer(1),
            },
            "set_config.request_id",
        ),
        (
            ClientMessage::Prompt { request_id: "é".to_string(), text: "éé".to_string() },
            "prompt.text",
        ),
    ] {
        assert_eq!(
            limits.validate_client_message(&message),
            Err(ProtocolValidationError::FieldTooLarge { field, max_bytes: 3 })
        );
    }
    assert!(limits.validate_client_message(&ClientMessage::Ping).is_ok());
}

#[test]
fn false_flags_are_left_out() {
    assert!(is_false(&false));
    assert!(!is_false(&true));
}
