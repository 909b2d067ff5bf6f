use guardlib::der::{element_total_length, enter_sequence, extract_spki, read_length, skip_element};

#[test]
fn short_form_length() {
    assert_eq!(read_length(&[0x30, 0x05], 1), Some((2, 5)));
    assert_eq!(read_length(&[0x7f], 0), Some((1, 0x7f)));
}

#[test]
fn long_form_length() {
    assert_eq!(read_length(&[0x30, 0x82, 0x01, 0x2c], 1), Some((4, 300)));
    assert_eq!(read_length(&[0x81, 0xc8], 0), Some((2, 200)));
}

#[test]
fn indefinite_or_truncated_length_is_refused() {
    assert_eq!(read_length(&[0x80], 0), None);
    assert_eq!(read_length(&[0x82, 0x01], 0), None);
    assert_eq!(read_length(&[0x05], 1), None);
}

#[test]
fn element_lengths_and_skipping() {
    let der = [0x02, 0x03, 1, 2, 3, 0x30, 0x00];
    assert_eq!(element_total_length(&der, 0), Some((2, 5)));
    assert_eq!(skip_element(&der, 0), Some(5));
    assert_eq!(skip_element(&der, 5), Some(7));
    assert_eq!(skip_element(&der, 6), None);
    assert_eq!(enter_sequence(&der, 5), Some(7));
    assert_eq!(enter_sequence(&der, 0), None);
}

#[test]
fn oversized_length_is_refused_not_wrapped() {
    let der = [0x02, 0x88, 0xff, 0xff, 0xff, 0xff, 0xff, 0xff, 0xff, 0xff];
    assert_eq!(skip_element(&der, 0), None);
}

#[test]
fn spki_is_found_after_five_fields() {
    let spki = [0x30, 0x03, 0x02, 0x01, 0x07];
    let mut tbs = vec![0xa0, 0x03, 0x02, 0x01, 0x02];
    tbs.extend([0x02, 0x01, 0x01]);
    tbs.extend([0x30, 0x00, 0x30, 0x00, 0x30, 0x00, 0x30, 0x00]);
    tbs.extend(spki);
    let mut cert = vec![0x30, tbs.len() as u8];
    cert.extend(tbs);
    let mut der = vec![0x30, cert.len() as u8];
    der.extend(cert);
    assert_eq!(extract_spki(&der), Some(&spki[..]));
}
