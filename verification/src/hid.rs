//! USB HID boot-keyboard class data: the report descriptor, the HID class
//! descriptor that announces it, and which control requests the keyboard
//! interface answers.

use vstd::prelude::*;

verus! {

/// Standard USB HID boot-keyboard report descriptor.
pub const KEYBOARD_REPORT_DESCRIPTOR: [u8; 63] = [
    0x05, 0x01, // USAGE_PAGE (Generic Desktop)
    0x09, 0x06, // USAGE (Keyboard)
    0xa1, 0x01, // COLLECTION (Application)
    0x05, 0x07, //   USAGE_PAGE (Keyboard)
    0x19, 0xe0, //   USAGE_MINIMUM (Keyboard LeftControl)
    0x29, 0xe7, //   USAGE_MAXIMUM (Keyboard Right GUI)
    0x15, 0x00, //   LOGICAL_MINIMUM (0)
    0x25, 0x01, //   LOGICAL_MAXIMUM (1)
    0x75, 0x01, //   REPORT_SIZE (1)
    0x95, 0x08, //   REPORT_COUNT (8)
    0x81, 0x02, //   INPUT (Data,Var,Abs)
    0x95, 0x01, //   REPORT_COUNT (1)
    0x75, 0x08, //   REPORT_SIZE (8)
    0x81, 0x03, //   INPUT (Cnst,Var,Abs)
    0x95, 0x05, //   REPORT_COUNT (5)
    0x75, 0x01, //   REPORT_SIZE (1)
    0x05, 0x08, //   USAGE_PAGE (LEDs)
    0x19, 0x01, //   USAGE_MINIMUM (Num Lock)
    0x29, 0x05, //   USAGE_MAXIMUM (Kana)
    0x91, 0x02, //   OUTPUT (Data,Var,Abs)
    0x95, 0x01, //   REPORT_COUNT (1)
    0x75, 0x03, //   REPORT_SIZE (3)
    0x91, 0x03, //   OUTPUT (Cnst,Var,Abs)
    0x95, 0x06, //   REPORT_COUNT (6)
    0x75, 0x08, //   REPORT_SIZE (8)
    0x15, 0x00, //   LOGICAL_MINIMUM (0)
    0x25, 0x65, //   LOGICAL_MAXIMUM (101)
    0x05, 0x07, //   USAGE_PAGE (Keyboard)
    0x19, 0x00, //   USAGE_MINIMUM (Reserved (no event indicated))
    0x29, 0x65, //   USAGE_MAXIMUM (Keyboard Application)
    0x81, 0x00, //   INPUT (Data,Ary,Abs)
    0xc0, // END_COLLECTION
];

/// Interface class: HID.
pub const HID_CLASS: u8 = 0x03;
/// Interface subclass: boot interface.
pub const HID_BOOT_SUBCLASS: u8 = 0x01;
/// Interface protocol: keyboard.
pub const HID_KEYBOARD_PROTOCOL: u8 = 0x01;
/// Descriptor type of the HID class descriptor.
pub const HID_DESCRIPTOR_TYPE: u8 = 0x21;
/// Descriptor type of a HID report descriptor.
pub const REPORT_DESCRIPTOR_TYPE: u8 = 0x22;

/// Request type codes of a control request (bits 5..6 of `bmRequestType`).
pub const REQUEST_TYPE_STANDARD: u8 = 0;
pub const REQUEST_TYPE_CLASS: u8 = 1;
/// Recipient code of a control request addressed to an interface.
pub const RECIPIENT_INTERFACE: u8 = 1;
/// Standard request GET_DESCRIPTOR.
pub const GET_DESCRIPTOR: u8 = 6;
/// HID class requests the keyboard acknowledges.
pub const HID_SET_REPORT: u8 = 0x09;
pub const HID_SET_IDLE: u8 = 0x0A;
pub const HID_SET_PROTOCOL: u8 = 0x0B;

/// The body of the HID class descriptor: HID 1.11, no country code, one
/// report descriptor of the given length.
pub open spec fn hid_descriptor_body(report_len: int) -> Seq<u8> {
    seq![0x11u8, 0x01u8, 0x00u8, 0x01u8, REPORT_DESCRIPTOR_TYPE, report_len as u8, 0x00u8]
}

/// The body of the HID class descriptor, announcing the report descriptor
/// and its length.
pub fn hid_descriptor() -> (d: [u8; 7])
    ensures
        d@ == hid_descriptor_body(KEYBOARD_REPORT_DESCRIPTOR@.len() as int),
        d@[5] as int == KEYBOARD_REPORT_DESCRIPTOR@.len(),
{
    let len = KEYBOARD_REPORT_DESCRIPTOR.len() as u8;
    let d = [0x11, 0x01, 0x00, 0x01, REPORT_DESCRIPTOR_TYPE, len, 0x00];
    assert(d@ =~= hid_descriptor_body(KEYBOARD_REPORT_DESCRIPTOR@.len() as int));
    d
}

/// A standard GET_DESCRIPTOR request to the interface for its report
/// descriptor (descriptor type in the high byte of `value`).
pub open spec fn report_descriptor_request(request_type: u8, recipient: u8, request: u8, value: u16) -> bool {
    &&& request_type == REQUEST_TYPE_STANDARD
    &&& recipient == RECIPIENT_INTERFACE
    &&& request == GET_DESCRIPTOR
    &&& value / 256 == REPORT_DESCRIPTOR_TYPE
}

/// The host asks for the report descriptor: the keyboard answers an IN
/// control request with [`KEYBOARD_REPORT_DESCRIPTOR`] exactly then.
pub fn is_report_descriptor_request(request_type: u8, recipient: u8, request: u8, value: u16) -> (r: bool)
    ensures
        r == report_descriptor_request(request_type, recipient, request, value),
{
    request_type == REQUEST_TYPE_STANDARD && recipient == RECIPIENT_INTERFACE && request
        == GET_DESCRIPTOR && value / 256 == REPORT_DESCRIPTOR_TYPE as u16
}

/// A class request to the interface that the keyboard acknowledges:
/// SET_IDLE, SET_PROTOCOL or SET_REPORT. Any other OUT request is left
/// unanswered.
pub fn accepts_class_request(request_type: u8, recipient: u8, request: u8) -> (r: bool)
    ensures
        r == (request_type == REQUEST_TYPE_CLASS && recipient == RECIPIENT_INTERFACE && (request
            == HID_SET_IDLE || request == HID_SET_PROTOCOL || request == HID_SET_REPORT)),
{
    request_type == REQUEST_TYPE_CLASS && recipient == RECIPIENT_INTERFACE && (request == HID_SET_IDLE
        || request == HID_SET_PROTOCOL || request == HID_SET_REPORT)
}

} // verus!
