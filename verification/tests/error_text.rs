use paintcore::img::error::{ErrorKind, ImgError};

#[test]
fn image_errors_read_as_kind_message_or_text() {
    assert_eq!(ImgError::Simple(ErrorKind::OutboundIndex).fmt(), "OutboundIndex");
    assert_eq!(ImgError::SimpleAddMessage(ErrorKind::DecodeError, "Nothing marker".to_string()).fmt(), "DecodeError Nothing marker");
    assert_eq!(ImgError::Custom("Not Jpeg".to_string()).fmt(), "Not Jpeg");
}
