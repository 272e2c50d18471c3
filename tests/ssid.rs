use wtv_buildio::ssid::{SSIDBoxType, SSIDInfo, SSIDManufacture, MANUFACTURE_SIGNATURE};

fn crc_of(raw: &[u8; 8]) -> u8 {
    let mut crc: u8 = 0;
    for index in 0..7 {
        let mut byte = raw[index];
        for _ in 0..8 {
            let mix = (crc ^ byte) & 1;
            crc >>= 1;
            if mix == 1 {
                crc ^= 0x8c;
            }
            byte >>= 1;
        }
    }
    crc
}

#[test]
fn decodes_fields_of_a_known_identifier() {
    let raw: [u8; 8] = [0x71, 0x12, 0x34, 0x56, 0x10, 0xb0, 0x02, 0x00];
    let info = SSIDInfo::new(raw).unwrap();
    assert_eq!(info.box_type, SSIDBoxType::MAME);
    assert_eq!(info.box_id, 0x123456);
    assert_eq!(info.manufacture, SSIDManufacture::Phillips);
    assert_eq!(info.manufacture_unknown1, 0);
    assert_eq!(info.manufacture_signature, 0xb002);
    assert_eq!(info.crc, 0);
    assert_eq!(info.calculated_crc, crc_of(&raw));
    assert_eq!(info.value, "7112345610b00200");
    assert_eq!(info.raw, raw);
}

#[test]
fn crc_of_zero_bytes_is_zero() {
    assert_eq!(SSIDInfo::calculate_raw_crc([0u8; 8]), 0);
}

#[test]
fn crc_matches_reference_computation() {
    let raw: [u8; 8] = [0x81, 0xde, 0xad, 0xbe, 0x00, 0xb0, 0x02, 0x00];
    assert_eq!(SSIDInfo::calculate_raw_crc(raw), crc_of(&raw));
    let single: [u8; 8] = [1, 0, 0, 0, 0, 0, 0, 0];
    // one set bit runs the feedback once per remaining round
    assert_eq!(SSIDInfo::calculate_raw_crc(single), crc_of(&single));
    assert_ne!(SSIDInfo::calculate_raw_crc(single), 0);
}

#[test]
fn generated_mame_sony_identifier_checks() {
    for _ in 0..16 {
        let info = SSIDInfo::generate(SSIDBoxType::MAME, SSIDManufacture::Sony).unwrap();
        let again = SSIDInfo::new(info.raw).unwrap();
        assert_eq!(again.calculated_crc, again.crc);
        assert_eq!(again.box_type, SSIDBoxType::MAME);
        assert_eq!(again.manufacture, SSIDManufacture::Sony);
        assert_eq!(again.manufacture_signature, MANUFACTURE_SIGNATURE);
        assert!(again.is_valid());
    }
}

#[test]
fn generate_with_fixed_random_bytes() {
    let info = SSIDInfo::generate_with([0xaa; 8], SSIDBoxType::Retail, SSIDManufacture::Matsushita);
    assert_eq!(info.raw[0], 0x81);
    assert_eq!(&info.raw[1..4], &[0xaa, 0xaa, 0xaa]);
    assert_eq!(info.raw[4], 0x00);
    assert_eq!(info.raw[5], 0xb1);
    assert_eq!(info.raw[6], 0x02);
    assert_eq!(info.raw[7], crc_of(&info.raw));
    assert_eq!(info.manufacture, SSIDManufacture::Matsushita);
    assert_eq!(info.crc, info.calculated_crc);
}

#[test]
fn unsigned_manufacturer_reads_as_generic() {
    let info = SSIDInfo::new([0x71, 0, 0, 1, 0x10, 0x00, 0x00, 0]).unwrap();
    assert_eq!(info.manufacture, SSIDManufacture::Generic);
    let signed = SSIDInfo::new([0x71, 0, 0, 1, 0x10, 0xb0, 0x02, 0]).unwrap();
    assert_eq!(signed.manufacture, SSIDManufacture::Phillips);
}

#[test]
fn crc_mismatch_is_invalid() {
    let raw: [u8; 8] = [0x71, 1, 2, 3, 0, 0xb0, 0x02, 0];
    let mut bad = raw;
    bad[7] = crc_of(&raw) ^ 0xff;
    assert!(!SSIDInfo::new(bad).unwrap().is_valid());
}

#[test]
fn box_type_codes_round_trip() {
    for item in SSIDBoxType::to_list() {
        assert_eq!(SSIDBoxType::from_u8(SSIDBoxType::to_u8(&item.box_type)), item.box_type);
    }
    assert_eq!(SSIDBoxType::from_u8(0x42), SSIDBoxType::Generic);
    assert_eq!(SSIDBoxType::to_u8(&SSIDBoxType::NoneType), 0x00);
    assert_eq!(SSIDBoxType::to_string(&SSIDBoxType::MattMan), "MattMan");
}

#[test]
fn box_type_items() {
    let list = SSIDBoxType::to_list();
    assert_eq!(list.len(), 7);
    assert_eq!(list[0].box_type, SSIDBoxType::Generic);
    let mame = SSIDBoxType::to_item(SSIDBoxType::MAME);
    assert_eq!(mame.name, "MAME");
    assert_eq!(mame.value, 0x71);
    assert_eq!(mame.hex_value, "0x71");
    assert_eq!(mame.description, "");
    let internal = SSIDBoxType::to_item(SSIDBoxType::Internal);
    assert_eq!(internal.description, "Used for WNI's internal testing");
    assert_eq!(internal.hex_value, "0x01");
}

#[test]
fn manufacture_lists_and_items() {
    assert_eq!(SSIDManufacture::to_list(true, true).len(), 18);
    assert_eq!(SSIDManufacture::to_list(false, true).len(), 12);
    assert_eq!(SSIDManufacture::to_list(true, false).len(), 17);
    let plain = SSIDManufacture::to_list(false, false);
    assert_eq!(plain.len(), 11);
    assert_eq!(plain[0].manufacture, SSIDManufacture::Sony);
    assert_eq!(plain[10].manufacture, SSIDManufacture::Matsushita);
    let phillips = SSIDManufacture::to_item(SSIDManufacture::Phillips);
    assert_eq!(phillips.hex_value, "0x1000");
    assert_eq!(phillips.value, 0x1000);
    assert_eq!(phillips.description, "Phillips Magnavox");
    assert_eq!(SSIDManufacture::to_string(&SSIDManufacture::Matsushita), "Mitsushita");
    assert_eq!(SSIDManufacture::from_u16(0xa000), SSIDManufacture::Sharp);
    assert_eq!(SSIDManufacture::from_u16(0x1234), SSIDManufacture::Generic);
    assert_eq!(SSIDManufacture::to_u16(&SSIDManufacture::WebTVOEM), 0x2000);
}
