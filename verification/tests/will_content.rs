use rustx::mqtt::mqtt_utils::mqtt_error::MqttError;
use rustx::mqtt::mqtt_utils::will_message_utils::app_type::AppType;
use rustx::mqtt::mqtt_utils::will_message_utils::will_content::WillContent;

#[test]
fn test_app_will_content_to_and_from_bytes_works() {
    let will_msg = WillContent::new(AppType::Cameras, Some(1));
    assert_eq!(will_msg, WillContent::will_content_from_string(will_msg.to_str().as_str()).unwrap());
}

#[test]
fn will_content_text_is_exact() {
    assert_eq!(WillContent::new(AppType::Dron, Some(203)).to_str(), "dron-1-203");
    assert_eq!(WillContent::new(AppType::Monitoreo, None).to_str(), "monitoreo-0-0");
    assert_eq!(WillContent::new(AppType::Cameras, Some(0)).to_str(), "camaras-1-0");
}

#[test]
fn will_content_roundtrips_for_every_kind() {
    for app in [AppType::Cameras, AppType::Dron, AppType::Monitoreo] {
        for id in [None, Some(0), Some(9), Some(10), Some(99), Some(100), Some(255)] {
            let w = WillContent::new(app, id);
            assert_eq!(WillContent::will_content_from_string(&w.to_str()), Ok(w));
        }
    }
}

#[test]
fn will_content_reading_trims_and_accepts_plus_and_zeros() {
    let w = WillContent::will_content_from_string("  dron-+1-007\n").unwrap();
    assert_eq!(w.get_app_type_identifier(), AppType::Dron);
    assert_eq!(w.get_id(), Some(7));
    let none = WillContent::will_content_from_string("camaras-2-xyz").unwrap();
    assert_eq!(none.get_id(), None);
}

#[test]
fn will_content_reading_errors() {
    assert_eq!(WillContent::will_content_from_string("dron-1"), Err(MqttError::InvalidWillContent));
    assert_eq!(WillContent::will_content_from_string("dron-1-2-3"), Err(MqttError::InvalidWillContent));
    assert_eq!(WillContent::will_content_from_string("auto-1-2"), Err(MqttError::InvalidAppType));
    assert_eq!(WillContent::will_content_from_string("dron-x-2"), Err(MqttError::InvalidWillContent));
    assert_eq!(WillContent::will_content_from_string("dron-1-256"), Err(MqttError::InvalidWillContent));
    assert_eq!(WillContent::will_content_from_string("dron-1-"), Err(MqttError::InvalidWillContent));
    assert_eq!(WillContent::will_content_from_string("dron-1-+"), Err(MqttError::InvalidWillContent));
}

#[test]
fn app_type_names_roundtrip() {
    for app in [AppType::Cameras, AppType::Dron, AppType::Monitoreo] {
        assert_eq!(AppType::app_type_from_str(&app.to_str()), Ok(app));
    }
    assert_eq!(AppType::Cameras.to_str(), "camaras");
    assert_eq!(AppType::app_type_from_str("Dron"), Err(MqttError::InvalidAppType));
}
