use novation_bridge::model_config::EndpointInfo;
use novation_bridge::usb::{
    InteractiveInterface, SendStep, UsbIn, UsbOut, TRANSFER_LIMIT, TRANSFER_SIZE,
};

const INFO: EndpointInfo = EndpointInfo { input: 3, output: 4 };

#[test]
fn input_remembers_a_failure() {
    let mut usb_in = UsbIn::new(&INFO);
    assert_eq!(usb_in.address(), 0x83);
    assert!(usb_in.can_request(TRANSFER_LIMIT - 1));
    assert!(!usb_in.can_request(TRANSFER_LIMIT));
    usb_in.recv(true);
    assert!(!usb_in.has_err());
    usb_in.recv(false);
    assert!(usb_in.has_err());
    usb_in.recv(true);
    assert!(usb_in.has_err());
}

#[test]
fn output_reuses_buffers() {
    let mut usb_out = UsbOut::new(&INFO);
    assert_eq!(usb_out.address(), 0x04);
    let buffer = usb_out.submit(&[1, 2, 3]);
    assert_eq!(buffer, vec![1, 2, 3]);
    assert!(buffer.capacity() >= TRANSFER_SIZE);
    let mut back = buffer;
    back.clear();
    let place = back.as_ptr() as usize;
    usb_out.sent(true, back);
    let again = usb_out.submit(&[4]);
    assert_eq!(again, vec![4]);
    assert_eq!(again.as_ptr() as usize, place);
    // A buffer that is given back with something in it keeps it.
    usb_out.sent(true, vec![9]);
    assert_eq!(usb_out.submit(&[5]), vec![9, 5]);
    assert!(!usb_out.has_err());
}

#[test]
fn output_keeps_a_limited_number_of_buffers() {
    assert_eq!(TRANSFER_LIMIT, 128);
    assert_eq!(TRANSFER_SIZE, 1024);
    let mut usb_out = UsbOut::new(&INFO);
    for i in 0..TRANSFER_LIMIT + 2 {
        usb_out.sent(true, vec![i as u8]);
    }
    assert_eq!(usb_out.submit(&[]), vec![(TRANSFER_LIMIT - 1) as u8]);
    for _ in 0..TRANSFER_LIMIT - 1 {
        assert_eq!(usb_out.submit(&[]).len(), 1);
    }
    assert_eq!(usb_out.submit(&[]).len(), 0);
}

#[test]
fn output_waits() {
    let mut usb_out = UsbOut::new(&INFO);
    assert_eq!(usb_out.send(0), SendStep::Notification);
    assert_eq!(usb_out.send(1), SendStep::Completion);
    assert!(usb_out.can_submit(0));
    assert!(usb_out.can_submit(127));
    assert!(!usb_out.can_submit(128));
    usb_out.sent(false, Vec::new());
    assert!(usb_out.has_err());
    usb_out.sent(true, Vec::new());
    assert!(usb_out.has_err());
}

#[test]
fn interface_fails_with_either_endpoint() {
    let mut interface = InteractiveInterface::new(INFO);
    assert!(!interface.has_err());
    {
        let (usb_in, usb_out) = interface.split();
        assert_eq!(usb_in.address(), 0x83);
        assert_eq!(usb_out.address(), 0x04);
        usb_in.recv(false);
    }
    assert!(interface.has_err());
    let mut interface = InteractiveInterface::new(INFO);
    interface.split().1.sent(false, Vec::new());
    assert!(interface.has_err());
}
