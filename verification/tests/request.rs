use serde_json::Value;
use vfio_passthrough::request::{
    checked_id, parse_put_vfio, RequestError, StatusCode, VmmAction,
};
use vfio_passthrough::vmm_config::VfioDeviceConfig;

fn text_of(value: &Value) -> Result<String, String> {
    match value.as_str() {
        Some(text) => Ok(text.to_string()),
        None => Err("not a string".to_string()),
    }
}

/// A configuration from the text of a request body; unknown and missing fields are errors.
fn body(text: &str) -> Result<VfioDeviceConfig, String> {
    let value: Value = serde_json::from_str(text).map_err(|e| e.to_string())?;
    let object = value.as_object().ok_or("not an object".to_string())?;
    let mut config = VfioDeviceConfig::default();
    for name in ["id", "iommu_group", "host_pci_bdf"] {
        if !object.contains_key(name) {
            return Err(format!("missing field {}", name));
        }
    }
    for (name, field) in object.iter() {
        match name.as_str() {
            "id" => config.id = text_of(field)?,
            "iommu_group" => {
                config.iommu_group = field.as_u64().ok_or("not a number".to_string())? as u32
            }
            "host_pci_bdf" => config.host_pci_bdf = text_of(field)?,
            "no_iommu" => config.no_iommu = field.as_bool().ok_or("not a flag".to_string())?,
            _ => return Err(format!("unknown field {}", name)),
        }
    }
    Ok(config)
}

#[test]
fn test_parse_put_vfio_missing_id() {
    let e = parse_put_vfio(body("{}"), None).unwrap_err();
    assert!(matches!(e, RequestError::EmptyID));
}

#[test]
fn test_parse_put_vfio_invalid_payload() {
    let e = parse_put_vfio(body("invalid json"), Some("dev0")).unwrap_err();
    assert!(matches!(e, RequestError::SerdeJson(_)));
}

#[test]
fn test_parse_put_vfio_unknown_fields() {
    let text = r#"{
        "id": "dev0",
        "iommu_group": 1,
        "host_pci_bdf": "0000:01:00.0",
        "unknown_field": true
    }"#;
    let e = parse_put_vfio(body(text), Some("dev0")).unwrap_err();
    assert!(matches!(e, RequestError::SerdeJson(_)));
}

#[test]
fn test_parse_put_vfio_id_mismatch() {
    let text = r#"{
        "id": "dev1",
        "iommu_group": 1,
        "host_pci_bdf": "0000:01:00.0"
    }"#;
    let e = parse_put_vfio(body(text), Some("dev0")).unwrap_err();
    match e {
        RequestError::Generic(status, text) => {
            assert_eq!(status, StatusCode::BadRequest);
            assert_eq!(text, "The id from the path does not match the id from the body!");
        }
        _ => panic!("another error"),
    }
}

#[test]
fn test_parse_put_vfio_valid() {
    let text = r#"{
        "id": "gpu0",
        "iommu_group": 42,
        "host_pci_bdf": "0000:01:00.0"
    }"#;
    let req = parse_put_vfio(body(text), Some("gpu0")).unwrap();
    let expected = VmmAction::InsertVfioDevice(VfioDeviceConfig {
        id: "gpu0".to_string(),
        iommu_group: 42,
        host_pci_bdf: "0000:01:00.0".to_string(),
        no_iommu: false,
    });
    assert_eq!(req, expected);
}

#[test]
fn test_parse_put_vfio_no_iommu() {
    let text = r#"{
        "id": "fpga0",
        "iommu_group": 7,
        "host_pci_bdf": "0000:00:03.0",
        "no_iommu": true
    }"#;
    let req = parse_put_vfio(body(text), Some("fpga0")).unwrap();
    let expected = VmmAction::InsertVfioDevice(VfioDeviceConfig {
        id: "fpga0".to_string(),
        iommu_group: 7,
        host_pci_bdf: "0000:00:03.0".to_string(),
        no_iommu: true,
    });
    assert_eq!(req, expected);
}

#[test]
fn ids_hold_alphanumerics_and_hyphens() {
    assert_eq!(checked_id::<u8>("my-nic").unwrap(), "my-nic");
    assert_eq!(checked_id::<u8>("gpu-0").unwrap(), "gpu-0");
    assert_eq!(checked_id::<u8>("Z\u{e9}9").unwrap(), "Z\u{e9}9");
    assert!(matches!(checked_id::<u8>("").unwrap_err(), RequestError::EmptyID));
    for id in ["a b", "a_b", "a/b", "@", "`", "{", "[", ":", "/", "\u{2014}"] {
        assert!(matches!(checked_id::<u8>(id).unwrap_err(), RequestError::InvalidID));
    }
    for n in 0..128u8 {
        let c = n as char;
        let text = c.to_string();
        assert_eq!(
            checked_id::<u8>(text.as_str()).is_ok(),
            c == '-' || c.is_ascii_alphanumeric()
        );
    }
}

#[test]
fn an_id_is_checked_before_the_body() {
    let e = parse_put_vfio(body("invalid json"), Some("a b")).unwrap_err();
    assert!(matches!(e, RequestError::InvalidID));
    let e = parse_put_vfio(body("invalid json"), Some("")).unwrap_err();
    assert!(matches!(e, RequestError::EmptyID));
}
