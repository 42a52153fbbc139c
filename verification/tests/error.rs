use engine_core::EngineError;

#[test]
fn error_display() {
    let err = EngineError::InvalidConfig("missing field".to_string());
    assert!(err.message().contains("missing field"));
}

#[test]
fn every_kind_of_error_has_its_text() {
    let text = |e: EngineError| e.message();
    assert_eq!(text(EngineError::InvalidConfig("a".into())), "Invalid configuration: a");
    assert_eq!(text(EngineError::SignalProcessing("b".into())), "Signal processing error: b");
    assert_eq!(text(EngineError::CursorDetection("c".into())), "Cursor detection failed: c");
    assert_eq!(
        text(EngineError::FrameAnalysis { frame_index: 4_294_967_295, message: "d".into() }),
        "Frame analysis error at frame 4294967295: d"
    );
    assert_eq!(
        text(EngineError::FrameAnalysis { frame_index: 0, message: String::new() }),
        "Frame analysis error at frame 0: "
    );
    assert_eq!(
        text(EngineError::FrameAnalysis { frame_index: 1_070, message: "e".into() }),
        "Frame analysis error at frame 1070: e"
    );
    assert_eq!(text(EngineError::KeyframeGeneration("f".into())), "Keyframe generation error: f");
    assert_eq!(text(EngineError::Serialization("g".into())), "Serialization error: g");
}

#[test]
fn a_json_error_becomes_a_serialization_error_with_its_own_words() {
    let failure = serde_json::from_str::<serde_json::Value>("{\"a\": ").unwrap_err();
    let words = failure.to_string();
    assert!(!words.is_empty());
    let err = EngineError::from(failure);
    match &err {
        EngineError::Serialization(detail) => assert_eq!(detail, &words),
        other => panic!("not a serialization error: {:?}", other),
    }
    assert_eq!(err.message(), format!("Serialization error: {}", words));
}
