use tros::mbox::MailBox;
use tros::uart::{uart_pin_function, UART, UART_DR, UART_FR};

#[test]
fn new_uses_data_and_flag_registers() {
    let u = UART::new();
    assert_eq!((u.mu_io_addr, u.mu_lsr_addr), (UART_DR, UART_FR));
    assert_eq!(UART::default(), u);
    assert_eq!(UART_DR, 0x3F20_1000);
}

#[test]
fn write_translates_line_ends() {
    let u = UART::new();
    let mut out = Vec::new();
    u.write("a\nb", &mut out);
    assert_eq!(out, vec![97, 10, 13, 98]);
    out.clear();
    u.write("\r", &mut out);
    let mut want = vec![10, 13];
    want.extend("READY:> ".bytes().map(|b| b as u32));
    assert_eq!(out, want);
}

#[test]
fn clock_request_keeps_the_rest_of_the_buffer() {
    let u = UART::new();
    let mut m = MailBox::new();
    m.mbox[9] = 5;
    m.mbox[35] = 6;
    u.request_clock_rate(&mut m);
    assert_eq!(&m.mbox[..9], &[36, 0, 0x38002, 12, 8, 2, 4_000_000, 0, 0]);
    assert_eq!((m.mbox[9], m.mbox[35]), (5, 6));
}

#[test]
fn pin_function_selects_alt0_for_pins_14_and_15() {
    assert_eq!(uart_pin_function(0), 0x24000);
    assert_eq!(uart_pin_function(0xFFFF_FFFF), 0xFFFE_4FFF);
    assert_eq!(uart_pin_function(0x0001_B000), 0x0002_4000);
}
