use pantry_rs::interface::LLMConnectorType;
use pantry_rs::CapabilityType;

#[test]
fn capability_names_are_lower_case() {
    assert_eq!(CapabilityType::General.to_string(), "general");
    assert_eq!(CapabilityType::Assistant.to_string(), "assistant");
    assert_eq!(CapabilityType::Writing.to_string(), "writing");
    assert_eq!(CapabilityType::Coding.to_string(), "coding");
}

#[test]
fn connector_names() {
    assert_eq!(LLMConnectorType::GenericAPI.to_string(), "GenericAPI");
    assert_eq!(LLMConnectorType::LLMrs.to_string(), "LLMrs");
    assert_eq!(LLMConnectorType::OpenAI.to_string(), "OpenAI");
}
