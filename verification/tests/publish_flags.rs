use rustx::mqtt::mqtt_utils::mqtt_error::MqttError;
use rustx::publish_flags::PublishFlags;

#[test]
fn test_1_intentar_crear_pub_flags_invalidos_da_error() {
    let flags_invalidos_a = PublishFlags::new(2, 0, 0);
    let flags_invalidos_b = PublishFlags::new(0, 0, 2);
    let flags_invalidos_c = PublishFlags::new(0, 3, 0);
    assert!(flags_invalidos_a.is_err());
    assert!(flags_invalidos_b.is_err());
    assert!(flags_invalidos_c.is_err());
}

#[test]
fn test_2_publish_flags_se_pasa_a_bytes_correctamente() {
    let flags = PublishFlags::new(0, 2, 1).unwrap();
    let byte_esperado: u8 = 0b0011_0101;
    assert_eq!(flags.to_flags_byte(), byte_esperado);
}

#[test]
fn test_3_publish_flags_se_pasa_a_bytes_y_se_interpreta_correctamente() {
    let flags = PublishFlags::new(0, 2, 1).unwrap();
    let byte_de_flags = flags.to_flags_byte();
    let flags_reconstruido = PublishFlags::from_flags_byte(&byte_de_flags);
    println!("Flags orig: {:?}", flags);
    println!("Flags rec: {:?}", flags_reconstruido);
    assert!(flags_reconstruido.is_ok());
    assert_eq!(flags_reconstruido.unwrap(), flags);
}

#[test]
fn flags_byte_with_wrong_type_is_refused() {
    assert_eq!(PublishFlags::from_flags_byte(&0x45), Err(MqttError::InvalidPublishType));
    assert_eq!(PublishFlags::new(1, 2, 1).unwrap().to_flags_byte(), 0x3D);
    assert!(PublishFlags::new(0, 1, 0).unwrap().is_qos_greater_than_0());
    assert_eq!(PublishFlags::new(0, 1, 0).err(), None);
    assert_eq!(PublishFlags::new(0, 3, 0).err(), Some(MqttError::InvalidPublishFlags));
}
