use std::rc::Rc;

use dscale::bcb::BCBAccess;
use dscale::bcb::BCBMessage;
use dscale::bcb::BCBMessageId;
use dscale::context::Access;
use dscale::context::Context;
use dscale::jiffies::Jiffies;
use dscale::message::Destination;
use dscale::message::Message;
use dscale::topology::Topology;

#[derive(Clone, Copy, Debug, PartialEq, Eq)]
struct Note(u32);

impl Message for Note {
    fn virtual_size(&self) -> usize {
        64
    }
}

#[test]
fn wrapper_sends_wrapped_and_keeps_broadcasts() {
    let mut ctx: Context<BCBMessage<Note>> =
        Context::for_process(Rc::new(Topology::new(3)), 1, 1, Jiffies(17));
    {
        let mut wrapped = BCBAccess::Wrap(&mut ctx);
        assert_eq!(wrapped.current_time(), Jiffies(17));
        wrapped.send_to(2, Note(1));
        wrapped.broadcast(Note(2));
        wrapped.send_self(Note(3));
        wrapped.broadcast(Note(4));
        assert_eq!(wrapped.take_broadcasts(), vec![Note(2), Note(4)]);
        assert!(wrapped.take_broadcasts().is_empty());
    }
    let sent = ctx.drain_messages();
    assert_eq!(sent.len(), 2);
    assert_eq!(sent[0].destination, Destination::To(2));
    assert!(matches!(&*sent[0].message, BCBMessage::Skip(Note(1))));
    assert_eq!(sent[0].size, 0);
    assert_eq!(sent[1].destination, Destination::SendSelf);
    assert!(matches!(&*sent[1].message, BCBMessage::Skip(Note(3))));
    assert!(ctx.drain_messages().is_empty());
}

#[test]
fn broadcast_messages_cost_nothing() {
    let name = BCBMessageId { process_id: 2, message_id: 9 };
    assert_eq!(BCBMessage::Initiate((name, Note(5))).virtual_size(), 0);
    assert_eq!(BCBMessage::<Note>::Signature(name).virtual_size(), 0);
    assert_eq!(BCBMessage::<Note>::Certificate(name).virtual_size(), 0);
    assert_eq!(BCBMessage::Skip(Note(5)).virtual_size(), 0);
    assert_eq!(name, BCBMessageId { process_id: 2, message_id: 9 });
}

#[test]
fn context_stages_requests_in_order() {
    let mut ctx: Context<Note> =
        Context::for_process(Rc::new(Topology::new(2)), 1, 2, Jiffies(0));
    assert_eq!(ctx.rank(), 2);
    ctx.send_to(1, Note(1));
    ctx.broadcast(Note(2));
    ctx.send_self(Note(3));
    let first = ctx.schedule_timer_after(Jiffies(5));
    let second = ctx.schedule_timer_after(Jiffies(1));
    assert!(first < second);
    let sent = ctx.drain_messages();
    let summary: Vec<(Destination, usize, u32)> =
        sent.iter().map(|o| (o.destination, o.size, o.message.0)).collect();
    assert_eq!(
        summary,
        vec![
            (Destination::To(1), 64, 1),
            (Destination::Broadcast, 64, 2),
            (Destination::SendSelf, 64, 3)
        ]
    );
    assert_eq!(ctx.drain_timers(), vec![(first, Jiffies(5)), (second, Jiffies(1))]);
    assert_eq!(ctx.now(), Jiffies(0));
    assert_eq!(ctx.global_unique_id(), 2);
}
