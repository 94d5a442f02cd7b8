use oxide_eda::ai::intent::{CircuitIntent, ComponentRequest, Distributor};
use oxide_eda::ai::mcp::{McpAction, McpServer};
use oxide_eda::ai::prompt::generate_circuit_generation_prompt;
use oxide_eda::ai::validator::{
    validate_and_enrich, PartLookupService, StandardCatalogService, ValidationError,
};

#[test]
fn test_real_part_validator_enrichment() {
    let mut intent = CircuitIntent::new("Minimal ESP32 with USB-C and BMP280");
    intent.add_component(ComponentRequest::new("ESP32-S3", "U"));
    intent.add_component(ComponentRequest::new("BMP280 Sensor", "U"));
    intent.add_component(ComponentRequest::new("USB-C Connector", "J"));

    let catalog = StandardCatalogService::new();
    let result = validate_and_enrich(&mut intent, &catalog);
    assert!(result.is_ok(), "Validation should succeed for known parts");

    assert_eq!(
        intent.components[0].verified_part_number.as_deref(),
        Some("ESP32-S3-WROOM-1-N8R8")
    );
    assert_eq!(
        intent.components[0].preferred_distributor,
        Some(Distributor::Lcsc)
    );
    assert!(intent.components[0].in_stock_quantity.unwrap() > 0);

    assert_eq!(
        intent.components[1].verified_part_number.as_deref(),
        Some("BMP280")
    );
    assert_eq!(
        intent.components[1].preferred_distributor,
        Some(Distributor::DigiKey)
    );

    assert!(intent.is_validated);
}

#[test]
fn test_unmatched_hallucinated_part_fails_validation() {
    let mut intent = CircuitIntent::new("Circuit with non-existent fantasy part");
    intent.add_component(ComponentRequest::new("Quantum_Flux_Super_IC_9999", "U"));

    let catalog = StandardCatalogService::new();
    let result = validate_and_enrich(&mut intent, &catalog);

    assert!(matches!(result, Err(ValidationError::UnmatchedPart { .. })));
    assert!(!intent.is_validated);
}

#[test]
fn test_prompt_generation() {
    let prompt = generate_circuit_generation_prompt("ESP32-S3 USB circuit");
    assert!(prompt.contains("User Request: \"ESP32-S3 USB circuit\""));
    assert!(prompt.contains("Output MUST be a single, valid JSON object"));
}

#[test]
fn prompt_quotes_request_twice_and_ends_with_rules() {
    let prompt = generate_circuit_generation_prompt("LED blinker");
    assert!(prompt.starts_with("You are Oxide EDA's AI Circuit Synthesis Engine.\n"));
    assert!(prompt.contains("  \"prompt\": \"LED blinker\",\n"));
    assert_eq!(prompt.matches("LED blinker").count(), 2);
    assert!(prompt.ends_with("4. Output JSON ONLY, no surrounding markdown fences or commentary."));
}

#[test]
fn validation_stops_at_first_unmatched_part_after_enriching_earlier_ones() {
    let mut intent = CircuitIntent::new("mixed");
    intent.add_component(ComponentRequest::new("TP4056 charger", "U"));
    intent.add_component(ComponentRequest::new("Imaginary Widget", "U"));
    intent.add_component(ComponentRequest::new("AMS1117-3.3 LDO", "U"));
    let catalog = StandardCatalogService::new();
    let result = validate_and_enrich(&mut intent, &catalog);
    match result {
        Err(ValidationError::UnmatchedPart { function }) => assert_eq!(function, "Imaginary Widget"),
        other => panic!("unexpected {:?}", other),
    }
    assert_eq!(intent.components[0].verified_part_number.as_deref(), Some("TP4056-42-ESOP8"));
    assert_eq!(intent.components[0].in_stock_quantity, Some(85000));
    assert_eq!(intent.components[1].verified_part_number, None);
    assert_eq!(intent.components[2].verified_part_number, None);
    assert!(!intent.is_validated);
}

#[test]
fn catalog_lookup_is_case_insensitive_and_first_registered_wins() {
    let mut catalog = StandardCatalogService::new();
    catalog.register("esp32", "OTHER-PART", Distributor::Mouser, 1);
    let found = catalog.find_in_stock_part("my esp32-s3 board").unwrap();
    assert_eq!(found.0, "ESP32-S3-WROOM-1-N8R8");
    assert_eq!(found.1, Distributor::Lcsc);
    assert_eq!(found.2, 14200);
    let other = catalog.find_in_stock_part("plain ESP32 module").unwrap();
    assert_eq!(other, ("OTHER-PART".to_string(), Distributor::Mouser, 1));
    assert!(catalog.find_in_stock_part("nothing here").is_none());
}

#[test]
fn component_with_part_already_is_left_alone() {
    let mut intent = CircuitIntent::new("pre-filled");
    let mut c = ComponentRequest::new("Unknown thing", "U");
    c.verified_part_number = Some("MY-PART".to_string());
    intent.add_component(c);
    let catalog = StandardCatalogService::default();
    assert!(validate_and_enrich(&mut intent, &catalog).is_ok());
    assert_eq!(intent.components[0].verified_part_number.as_deref(), Some("MY-PART"));
    assert_eq!(intent.components[0].preferred_distributor, None);
    assert!(intent.is_validated);
}

#[test]
fn validation_error_messages() {
    let e = ValidationError::UnmatchedPart { function: "X".to_string() };
    assert_eq!(e.message(), "Component 'X' has no verified manufacturer part number (MPN)");
    let e = ValidationError::OutOfStock { mpn: "P".to_string(), distributor: Distributor::DigiKey };
    assert_eq!(e.message(), "Part 'P' is currently Out of Stock at distributor DigiKey");
    let e = ValidationError::ObsoletePart { mpn: "Q".to_string() };
    assert_eq!(e.message(), "Part 'Q' is marked Not Recommended for New Designs (NRND) or Obsolete");
}

#[test]
fn intent_builder_records_connections() {
    let mut intent = CircuitIntent::new("Create an ESP32-S3 circuit with USB-C and a TP4056 LiPo charger");
    intent.add_component(ComponentRequest::new("USB-C Receptacle", "J"));
    intent.add_connection("VBUS", ("USB-C Receptacle", "VBUS"), ("TP4056 LiPo Charger", "VIN"));
    intent.add_connection("GND", ("USB-C Receptacle", "GND"), ("TP4056 LiPo Charger", "GND"));
    assert_eq!(intent.components.len(), 1);
    assert_eq!(intent.connections.len(), 2);
    assert_eq!(intent.connections[0].net_name, "VBUS");
    assert_eq!(intent.connections[1].to.1, "GND");
}

#[test]
fn mcp_routes_tools_and_errors() {
    assert!(matches!(McpServer::route("tools/list", "", false), McpAction::ListTools));
    assert!(matches!(McpServer::route("tools/call", "place_component", false), McpAction::PlaceComponent));
    assert!(matches!(McpServer::route("tools/call", "read_pcb", true), McpAction::ReadPcb));
    match McpServer::route("tools/call", "read_pcb", false) {
        McpAction::Fail(e) => {
            assert_eq!(e.code, -32000);
            assert_eq!(e.message, "No active PCB layout loaded");
        }
        _ => panic!("expected failure"),
    }
    match McpServer::route("tools/call", "frobnicate", true) {
        McpAction::Fail(e) => {
            assert_eq!(e.code, -32601);
            assert_eq!(e.message, "Unknown MCP tool method: frobnicate");
        }
        _ => panic!("expected failure"),
    }
    match McpServer::route("ping", "", true) {
        McpAction::Fail(e) => {
            assert_eq!(e.code, -32600);
            assert_eq!(e.message, "Invalid MCP request method: ping");
        }
        _ => panic!("expected failure"),
    }
    let tools = McpServer::tool_catalog();
    assert_eq!(tools.len(), 7);
    assert!(tools.iter().any(|t| t.0 == "read_pcb"));
    assert!(tools.iter().any(|t| t.0 == "place_component"));
}

#[test]
fn lookup_after_registrations_finds_the_first_matching_one() {
    let mut catalog = StandardCatalogService::default();
    assert!(catalog.find_in_stock_part("anything").is_none());
    catalog.register("LDO", "AP2112K-3.3", Distributor::DigiKey, 10);
    catalog.register("Regulator", "LM1117", Distributor::Mouser, 20);
    catalog.register("ldo", "SHADOWED", Distributor::Lcsc, 30);
    assert_eq!(
        catalog.find_in_stock_part("3.3V ldo regulator"),
        Some(("AP2112K-3.3".to_string(), Distributor::DigiKey, 10))
    );
    assert_eq!(
        catalog.find_in_stock_part("Switching REGULATOR"),
        Some(("LM1117".to_string(), Distributor::Mouser, 20))
    );
    assert_eq!(catalog.find_in_stock_part("op-amp"), None);
}
