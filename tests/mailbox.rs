use tros::mbox::{
    message, CallPhase, MailBox, MailboxAction, MailboxCall, MBOX_CH_PROP, MBOX_EMPTY, MBOX_FULL,
    MBOX_RESPONSE,
};

fn run_to_send(call: &mut MailboxCall, mbox: &MailBox) -> u32 {
    assert_eq!(call.step(mbox, MBOX_FULL), MailboxAction::Wait);
    match call.step(mbox, 0) {
        MailboxAction::Send(w) => w,
        other => panic!("expected a send, got {:?}", other),
    }
}

#[test]
fn new_buffer_is_zeroed() {
    let m = MailBox::new();
    assert!(m.mbox.iter().all(|w| *w == 0));
}

#[test]
fn clear_zeroes_every_word() {
    let mut m = MailBox::new();
    for i in 0..36 {
        m.mbox[i] = i as u32 + 1;
    }
    m.clear();
    assert_eq!(m.mbox, [0u32; 36]);
}

#[test]
fn message_puts_channel_in_low_bits() {
    assert_eq!(message(0x0008_0010, MBOX_CH_PROP), 0x0008_0018);
    assert_eq!(message(0x0008_001F, MBOX_CH_PROP), 0x0008_0018);
    assert_eq!(message(0x0008_0010, 0x1F), 0x0008_001F);
}

#[test]
fn call_starts_in_sending_phase() {
    let m = MailBox::new();
    let c = m.call(0x0008_0010, MBOX_CH_PROP);
    assert_eq!(c.message, 0x0008_0018);
    assert_eq!(c.phase, CallPhase::Sending);
    assert!(!c.is_done());
}

#[test]
fn exchange_completes_on_matching_echo() {
    let mut m = MailBox::new();
    m.mbox[1] = MBOX_RESPONSE;
    let mut c = m.call(0x0008_0010, MBOX_CH_PROP);
    assert_eq!(run_to_send(&mut c, &m), 0x0008_0018);
    assert_eq!(c.step(&m, MBOX_EMPTY), MailboxAction::Wait);
    assert_eq!(c.step(&m, 0), MailboxAction::Receive);
    // An answer for another request is dropped.
    assert_eq!(c.step(&m, 0x0009_0001), MailboxAction::ReadStatus);
    assert_eq!(c.step(&m, 0), MailboxAction::Receive);
    assert_eq!(c.step(&m, 0x0008_0018), MailboxAction::Complete(true));
    assert!(c.is_done());
    assert_eq!(c.step(&m, 0), MailboxAction::Complete(true));
}

#[test]
fn exchange_reports_rejected_buffer() {
    let m = MailBox::new();
    let mut c = m.call(0x0008_0010, MBOX_CH_PROP);
    run_to_send(&mut c, &m);
    assert_eq!(c.step(&m, 0), MailboxAction::Receive);
    assert_eq!(c.step(&m, 0x0008_0018), MailboxAction::Complete(false));
    assert_eq!(c.phase, CallPhase::Done { accepted: false });
}

#[test]
fn unmatched_echoes_keep_the_caller_polling() {
    let mut m = MailBox::new();
    m.mbox[1] = MBOX_RESPONSE;
    let mut c = m.call(0x0008_0010, MBOX_CH_PROP);
    run_to_send(&mut c, &m);
    // A bounded queue that only ever holds answers for other buffers.
    let foreign: Vec<u32> = (0..1000u32).map(|i| 0x0010_0008 + (i << 4)).collect();
    for w in foreign {
        assert_eq!(c.step(&m, 0), MailboxAction::Receive);
        let a = c.step(&m, w);
        assert_eq!(a, MailboxAction::ReadStatus);
        assert!(!c.is_done());
    }
}

#[test]
fn recall_without_clear_reuses_the_words() {
    let mut m = MailBox::new();
    for i in 0..36 {
        m.mbox[i] = 0x100 + i as u32;
    }
    m.mbox[1] = MBOX_RESPONSE;
    let before = m.clone();
    let mut first = m.call(0x0008_0010, MBOX_CH_PROP);
    run_to_send(&mut first, &m);
    first.step(&m, 0);
    assert_eq!(first.step(&m, 0x0008_0018), MailboxAction::Complete(true));
    assert_eq!(m, before);
    let mut second = m.call(0x0008_0010, MBOX_CH_PROP);
    assert_eq!(second, m.call(0x0008_0010, MBOX_CH_PROP));
    run_to_send(&mut second, &m);
    second.step(&m, 0);
    assert_eq!(second.step(&m, 0x0008_0018), MailboxAction::Complete(true));
    assert_eq!(m, before);
}
