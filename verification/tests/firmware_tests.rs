use stn_updater::error::Error;
use stn_updater::firmware::FirmwareImage;

fn container(
    device_ids: &[u16],
    descriptors: &[(u8, u8, u8, u32, u32)],
    data: &[u8],
) -> Vec<u8> {
    let mut bytes = Vec::new();
    bytes.extend_from_slice(b"STNFWv05");
    bytes.push(device_ids.len() as u8);
    for id in device_ids {
        bytes.extend_from_slice(&id.to_be_bytes());
    }
    bytes.push(descriptors.len() as u8);
    for (image_type, next_idx, error_idx, offset, size) in descriptors {
        bytes.push(*image_type);
        bytes.push(0xEE); // reserved
        bytes.push(*next_idx);
        bytes.push(*error_idx);
        bytes.extend_from_slice(&offset.to_be_bytes());
        bytes.extend_from_slice(&size.to_be_bytes());
    }
    bytes.extend_from_slice(data);
    bytes
}

#[test]
fn test_parse_container_with_descriptors() {
    let bytes = container(
        &[0x1234, 0x5678],
        &[(0x00, 0x01, 0x00, 0, 4), (0x00, 0xFF, 0x00, 4, 4)],
        &[1, 2, 3, 4, 5, 6, 7, 8],
    );
    let img = FirmwareImage::parse(&bytes).unwrap();
    assert_eq!(img.device_ids, vec![0x1234, 0x5678]);
    assert_eq!(img.descriptors.len(), 2);
    assert_eq!(img.descriptors[0].image_type, 0x00);
    assert_eq!(img.descriptors[0].next_idx, 0x01);
    assert_eq!(img.descriptors[0].error_idx, 0x00);
    assert_eq!(img.descriptors[0].image_offset, 0);
    assert_eq!(img.descriptors[0].image_size, 4);
    assert_eq!(img.descriptors[1].next_idx, 0xFF);
    assert_eq!(img.descriptors[1].image_offset, 4);
    assert_eq!(img.data, vec![1, 2, 3, 4, 5, 6, 7, 8]);
    assert!(img.validate());
}

#[test]
fn test_parse_container_without_descriptors_synthesizes_one() {
    let bytes = container(&[0x1234], &[], &[9, 9, 9, 9]);
    let total = bytes.len() as u32;
    let img = FirmwareImage::parse(&bytes).unwrap();
    assert_eq!(img.descriptors.len(), 1);
    let d = &img.descriptors[0];
    assert_eq!(d.image_type, 0x00);
    assert_eq!(d.next_idx, 0xFF);
    assert_eq!(d.error_idx, 0x00);
    assert_eq!(d.image_offset, 12);
    assert_eq!(d.image_size, total - 12);
    assert_eq!(img.data, vec![9, 9, 9, 9]);
}

#[test]
fn test_parse_rejects_bad_magic_and_version() {
    let mut bytes = container(&[], &[(0x00, 0xFF, 0, 0, 0)], &[]);
    bytes[0] = b'X';
    assert!(matches!(FirmwareImage::parse(&bytes), Err(Error::Deserialize)));

    let mut bytes = container(&[], &[(0x00, 0xFF, 0, 0, 0)], &[]);
    bytes[7] = b'6'; // version "06"
    assert!(matches!(FirmwareImage::parse(&bytes), Err(Error::Deserialize)));
}

#[test]
fn test_parse_rejects_truncated_input() {
    assert!(matches!(FirmwareImage::parse(&vec![]), Err(Error::Deserialize)));
    assert!(matches!(
        FirmwareImage::parse(&b"STNFWv05".to_vec()),
        Err(Error::Deserialize)
    ));
    // Announces two device identifiers but holds none.
    let mut bytes = b"STNFWv05".to_vec();
    bytes.push(2);
    assert!(matches!(FirmwareImage::parse(&bytes), Err(Error::Deserialize)));
    // Announces one descriptor but holds none.
    let mut bytes = b"STNFWv05".to_vec();
    bytes.push(0);
    bytes.push(1);
    assert!(matches!(FirmwareImage::parse(&bytes), Err(Error::Deserialize)));
}

#[test]
fn test_validate_rejects_out_of_range_slice() {
    let bytes = container(&[1], &[(0x00, 0xFF, 0x00, 0, 9)], &[0; 8]);
    let img = FirmwareImage::parse(&bytes).unwrap();
    assert!(!img.validate());
}

#[test]
fn test_validate_rejects_dangling_link() {
    let bytes = container(&[1], &[(0x00, 0x05, 0x00, 0, 1)], &[0; 8]);
    let img = FirmwareImage::parse(&bytes).unwrap();
    assert!(!img.validate());
}

#[test]
fn test_validate_rejects_cyclic_links() {
    let bytes = container(
        &[1],
        &[(0x00, 0x01, 0x00, 0, 1), (0x00, 0x00, 0x00, 1, 1)],
        &[0; 8],
    );
    let img = FirmwareImage::parse(&bytes).unwrap();
    assert!(!img.validate());
}

#[test]
fn test_validate_accepts_a_chain() {
    let bytes = container(
        &[1],
        &[(0x00, 0x01, 0x00, 0, 1), (0x00, 0xFF, 0x00, 1, 1)],
        &[0; 8],
    );
    let img = FirmwareImage::parse(&bytes).unwrap();
    assert!(img.validate());
}

#[test]
fn test_contains_device() {
    let bytes = container(&[0x1234, 0x0042], &[(0x00, 0xFF, 0x00, 0, 1)], &[0; 4]);
    let img = FirmwareImage::parse(&bytes).unwrap();
    assert!(img.contains_device(0x1234));
    assert!(img.contains_device(0x0042));
    assert!(!img.contains_device(0x9999));
}
