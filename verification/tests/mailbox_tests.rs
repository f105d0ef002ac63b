use proxima_backend::mailbox::{MailboxOwner, OwnerPhase, OwnerStep, PriorityMailbox};

#[test]
fn empty_mailbox_gives_nothing() {
    let mut mailbox: PriorityMailbox<u32> = PriorityMailbox::new();
    assert_eq!(mailbox.len(), 0);
    assert!(!mailbox.has_priority());
    assert_eq!(mailbox.recv(), None);
}

#[test]
fn priority_messages_go_first_and_each_queue_is_fifo() {
    let mut mailbox = PriorityMailbox::new();
    mailbox.send_normal("plain one");
    mailbox.send_priority("urgent one");
    mailbox.send_normal("plain two");
    mailbox.send_priority("urgent two");
    assert!(mailbox.has_priority());
    assert_eq!(mailbox.len(), 4);
    let mut handled = Vec::new();
    while let Some(m) = mailbox.recv() {
        handled.push(m);
    }
    assert_eq!(handled, vec!["urgent one", "urgent two", "plain one", "plain two"]);
}

#[test]
fn priority_message_overtakes_waiting_normal_messages() {
    let mut mailbox = PriorityMailbox::new();
    for n in 1..=1000u32 {
        mailbox.send_normal(n);
    }
    let mut handled = vec![mailbox.recv().unwrap()];
    mailbox.send_priority(0);
    while let Some(m) = mailbox.recv() {
        handled.push(m);
    }
    assert_eq!(handled.len(), 1001);
    assert_eq!(handled[0], 1);
    assert_eq!(handled[1], 0);
    let normal: Vec<u32> = handled.iter().copied().filter(|m| *m != 0).collect();
    assert_eq!(normal, (1..=1000).collect::<Vec<u32>>());
}

#[test]
fn owner_waits_for_priority_before_it_drains() {
    let mut mailbox = PriorityMailbox::new();
    let mut owner = MailboxOwner::new();
    assert_eq!(owner.get_phase(), OwnerPhase::AwaitPriority);
    mailbox.send_normal("plain one");
    mailbox.send_normal("plain two");
    assert_eq!(owner.next(&mut mailbox, false), OwnerStep::Wait);
    assert_eq!(mailbox.len(), 2);
    assert_eq!(owner.next(&mut mailbox, true), OwnerStep::Handle("plain one"));
    assert_eq!(owner.get_phase(), OwnerPhase::DrainNormal);
    mailbox.send_priority("urgent");
    assert_eq!(owner.next(&mut mailbox, false), OwnerStep::Handle("urgent"));
    assert_eq!(owner.next(&mut mailbox, false), OwnerStep::Handle("plain two"));
    assert_eq!(owner.next(&mut mailbox, false), OwnerStep::Wait);
    assert_eq!(owner.get_phase(), OwnerPhase::AwaitPriority);
    assert_eq!(owner.next(&mut mailbox, true), OwnerStep::Wait);
    mailbox.send_priority("late");
    assert_eq!(owner.next(&mut mailbox, false), OwnerStep::Handle("late"));
}
