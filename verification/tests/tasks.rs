use rtframe::actuation::{pwm_duty, quantize, Lamp};
use rtframe::clock::{Duration, Instant};
use rtframe::command::{Command, DecodeError};
use rtframe::dispatcher::{Dispatched, FrameKind, Next};
use rtframe::echo::{interupting, raw_lamp, raw_switch, EchoBuffer};
use rtframe::framer::{encode, FrameEvent, Framer};
use rtframe::scheduler::Scheduler;
use rtframe::task::{Invocation, Payload, TaskId};
use rtframe::tasks::{
    alternate, blink, blink_led, button_click, change_pwm, command_rx, idle, init, on_gpiote,
    parse, send, send_command, sending_blink, sending_buffer, Confirmations, Parsed,
};
use rtframe::timer_queue::Scheduled;

fn at(ticks: u64) -> Instant {
    Instant::from_ticks(ticks)
}

fn run(task: TaskId) -> Invocation {
    Invocation { task, payload: None }
}

fn sending(command: Command) -> Invocation {
    Invocation { task: TaskId::SendCommand, payload: Some(Payload::Command(command)) }
}

fn queue(scheduler: &Scheduler) -> Vec<(TaskId, u64)> {
    scheduler.entries().iter().map(|e| (e.task, e.due.ticks)).collect()
}

#[test]
fn start_up_leaves_blink_running_and_nothing_else() {
    let mut board = init(2400);
    assert_eq!(board.lamp, Lamp { brightness: 2400, time: 1, powered: false });
    assert_eq!(board.framer.len(), 0);
    assert_eq!(board.scheduler.pending(), 0);
    assert_eq!(board.scheduler.depth(), 1);
    assert_eq!(board.scheduler.waiting(), 0);
    assert_eq!(board.scheduler.current().unwrap().kind, FrameKind::Task(run(TaskId::Blink)));
    assert_eq!(board.scheduler.complete(), Some(Next::Idle));
}

#[test]
fn parse_applies_each_decoded_command_once() {
    let mut framer = Framer::new();
    let mut lamp = Lamp::new(2400);
    let frame = encode(Command::SetInterval(3));
    for b in &frame[..frame.len() - 1] {
        assert_eq!(
            parse(&mut framer, &mut lamp, *b),
            Parsed { event: FrameEvent::Pending, consumer: None }
        );
        assert_eq!(lamp, Lamp::new(2400));
    }
    assert_eq!(
        parse(&mut framer, &mut lamp, 0),
        Parsed {
            event: FrameEvent::Complete(Command::SetInterval(3)),
            consumer: Some(TaskId::Pace)
        }
    );
    assert_eq!(lamp, Lamp { brightness: 2400, time: 3, powered: false });
    assert_eq!(framer.len(), 0);
}

#[test]
fn no_decoded_command_is_lost() {
    // Commands that follow each other without a pause are all applied, each
    // by the byte that closes its frame.
    let mut framer = Framer::new();
    let mut lamp = Lamp::new(2400);
    let commands = [
        Command::On,
        Command::Off,
        Command::SetLevel(100),
        Command::SetInterval(7),
        Command::Off,
        Command::SetLevel(300),
        Command::On,
        Command::SetInterval(0),
    ];
    let mut model = lamp;
    for command in commands {
        let frame = encode(command);
        let mut seen = Vec::new();
        for b in frame {
            seen.push(parse(&mut framer, &mut lamp, b));
        }
        let last = seen.pop().unwrap();
        assert!(seen.iter().all(|p| p.event == FrameEvent::Pending && p.consumer.is_none()));
        assert_eq!(last.event, FrameEvent::Complete(command));
        let consumer = match command {
            Command::SetInterval(_) => TaskId::Pace,
            _ => TaskId::Light,
        };
        assert_eq!(last.consumer, Some(consumer));
        model.apply(command);
        assert_eq!(lamp, model);
    }
    assert_eq!(lamp, Lamp { brightness: 255, time: 0, powered: false });
}

#[test]
fn a_frame_that_does_not_decode_changes_nothing() {
    let mut framer = Framer::new();
    let mut lamp = Lamp::new(9);
    assert_eq!(
        parse(&mut framer, &mut lamp, 0),
        Parsed { event: FrameEvent::DecodeError(DecodeError::Malformed), consumer: None }
    );
    for b in [5u8, 1] {
        parse(&mut framer, &mut lamp, b);
    }
    assert_eq!(
        parse(&mut framer, &mut lamp, 0),
        Parsed { event: FrameEvent::DecodeError(DecodeError::BadEncoding), consumer: None }
    );
    for _ in 0..16 {
        assert_eq!(parse(&mut framer, &mut lamp, 7).event, FrameEvent::Pending);
    }
    assert_eq!(
        parse(&mut framer, &mut lamp, 7),
        Parsed { event: FrameEvent::Overflow, consumer: None }
    );
    assert_eq!(lamp, Lamp::new(9));
}

#[test]
fn the_receiver_hands_each_byte_to_parse() {
    let mut s = Scheduler::new();
    assert_eq!(s.spawn(TaskId::CommandRx, None), Dispatched::Started);
    assert_eq!(command_rx(&mut s, &[]), 0);
    assert_eq!(command_rx(&mut s, &[5, 6, 7]), 0);
    assert_eq!(s.outstanding_for(TaskId::Parse), 3);
    let more: Vec<u8> = (10..30).collect();
    assert_eq!(command_rx(&mut s, &more), 7);
    assert_eq!(s.outstanding_for(TaskId::Parse), 16);
    let mut seen = Vec::new();
    let mut next = s.complete();
    while let Some(Next::Start(inv)) = next {
        match inv.payload {
            Some(Payload::Byte(b)) => seen.push(b),
            _ => unreachable!(),
        }
        next = s.complete();
    }
    assert_eq!(next, Some(Next::Idle));
    assert_eq!(seen, vec![5, 6, 7, 10, 11, 12, 13, 14, 15, 16, 17, 18, 19, 20, 21, 22]);
}

#[test]
fn a_byte_received_while_nothing_runs_starts_parse_at_once() {
    let mut s = Scheduler::new();
    assert_eq!(command_rx(&mut s, &[1, 2]), 0);
    let first = Invocation { task: TaskId::Parse, payload: Some(Payload::Byte(1)) };
    assert_eq!(s.current().unwrap().kind, FrameKind::Task(first));
    assert_eq!(s.waiting(), 1);
}

#[test]
fn the_polling_loop_switches_the_lamp() {
    let mut framer = Framer::new();
    let mut seen = Vec::new();
    let mut stream = encode(Command::On);
    stream.extend(encode(Command::SetLevel(9)));
    stream.extend(encode(Command::Off));
    stream.extend([7, 7, 0]);
    for b in stream {
        seen.push(idle(&mut framer, b));
    }
    assert_eq!(
        seen,
        vec![
            None,
            None,
            Some(true),
            None,
            None,
            None,
            None,
            None,
            None,
            Some(false),
            None,
            None,
            None
        ]
    );
    assert_eq!(framer.len(), 0);
}

#[test]
fn a_confirmation_goes_in_front_of_what_is_due_later() {
    let mut s = Scheduler::new();
    assert_eq!(
        s.spawn_after(at(0), TaskId::Send, Duration::millis(25), None),
        Scheduled::Armed(at(25_000))
    );
    assert_eq!(
        on_gpiote(&mut s, at(0), Duration::millis(10), true, false, false),
        Confirmations { buttons: Some(Scheduled::Armed(at(10_000))), levels: None }
    );
    assert_eq!(queue(&s), vec![(TaskId::BlinkLed, 10_000), (TaskId::Send, 25_000)]);
    assert_eq!(s.next_deadline(), Some(at(10_000)));
}

#[test]
fn each_program_has_its_own_settle_delay() {
    for millis in [10u32, 15, 30] {
        let mut s = Scheduler::new();
        assert_eq!(
            on_gpiote(&mut s, at(1_000), Duration::millis(millis), false, true, false),
            Confirmations {
                buttons: Some(Scheduled::Armed(at(1_000 + 1_000 * millis as u64))),
                levels: None
            }
        );
        assert_eq!(queue(&s), vec![(TaskId::BlinkLed, 1_000 + 1_000 * millis as u64)]);
    }
}

#[test]
fn a_confirmation_that_is_outstanding_is_not_asked_for_twice() {
    let mut s = Scheduler::new();
    let settle = Duration::millis(15);
    assert_eq!(
        on_gpiote(&mut s, at(0), settle, true, false, false),
        Confirmations { buttons: Some(Scheduled::Armed(at(15_000))), levels: None }
    );
    // A bounce: the second edge is dropped and the queue stays as it is.
    assert_eq!(
        on_gpiote(&mut s, at(3_000), settle, false, true, false),
        Confirmations { buttons: Some(Scheduled::Dropped), levels: None }
    );
    assert_eq!(queue(&s), vec![(TaskId::BlinkLed, 15_000)]);
    // The port is another task's and has room of its own.
    assert_eq!(
        on_gpiote(&mut s, at(4_000), settle, true, true, true),
        Confirmations { buttons: Some(Scheduled::Dropped), levels: Some(Scheduled::Kept) }
    );
    assert_eq!(queue(&s), vec![(TaskId::BlinkLed, 15_000), (TaskId::ChangePwm, 19_000)]);
    // While the confirmation waits for the processor it still holds the room.
    assert_eq!(s.spawn(TaskId::CommandRx, None), Dispatched::Started);
    assert_eq!(s.on_timer_interrupt(at(15_000)).expired, 1);
    assert_eq!(s.waiting(), 1);
    assert_eq!(
        on_gpiote(&mut s, at(15_000), settle, true, false, false),
        Confirmations { buttons: Some(Scheduled::Dropped), levels: None }
    );
    // Once it runs, the next edge is taken.
    assert_eq!(s.complete(), Some(Next::Start(run(TaskId::BlinkLed))));
    assert_eq!(
        on_gpiote(&mut s, at(16_000), settle, true, false, false),
        Confirmations { buttons: Some(Scheduled::Kept), levels: None }
    );
    assert_eq!(queue(&s), vec![(TaskId::ChangePwm, 19_000), (TaskId::BlinkLed, 31_000)]);
}

#[test]
fn both_confirmations_fall_due_together_and_run_in_the_order_asked_for() {
    let mut s = Scheduler::new();
    assert_eq!(
        on_gpiote(&mut s, at(500), Duration::millis(15), false, true, true),
        Confirmations {
            buttons: Some(Scheduled::Armed(at(15_500))),
            levels: Some(Scheduled::Kept)
        }
    );
    assert_eq!(queue(&s), vec![(TaskId::BlinkLed, 15_500), (TaskId::ChangePwm, 15_500)]);
    let outcome = s.on_timer_interrupt(at(15_500));
    assert_eq!(outcome.expired, 2);
    assert_eq!(outcome.started, Some(run(TaskId::BlinkLed)));
    assert_eq!(outcome.rearm, None);
    assert_eq!(s.complete(), Some(Next::Start(run(TaskId::ChangePwm))));
    assert_eq!(s.complete(), Some(Next::Idle));
}

#[test]
fn no_event_schedules_nothing() {
    let mut s = Scheduler::new();
    assert_eq!(
        on_gpiote(&mut s, at(1_000), Duration::millis(15), false, false, false),
        Confirmations { buttons: None, levels: None }
    );
    assert_eq!(s.pending(), 0);
    assert_eq!(
        on_gpiote(&mut s, at(1_000), Duration::millis(15), false, false, true),
        Confirmations { buttons: None, levels: Some(Scheduled::Armed(at(16_000))) }
    );
}

#[test]
fn a_click_schedules_send_after_the_settle_delay() {
    let mut s = Scheduler::new();
    assert_eq!(button_click(&mut s, at(40)), Scheduled::Armed(at(25_040)));
    assert_eq!(s.head().unwrap().task, TaskId::Send);
    assert_eq!(s.head().unwrap().payload, None);
    assert_eq!(button_click(&mut s, at(50)), Scheduled::Dropped);
    assert_eq!(s.pending(), 1);
}

#[test]
fn settled_buttons_send_on_or_off() {
    let mut s = Scheduler::new();
    assert_eq!(blink_led(&mut s, false, false), None);
    assert_eq!(s.depth(), 0);
    assert_eq!(blink_led(&mut s, true, false), Some((Command::On, Dispatched::Started)));
    assert_eq!(s.current().unwrap().kind, FrameKind::Task(sending(Command::On)));
    assert_eq!(blink_led(&mut s, false, true), Some((Command::Off, Dispatched::Queued)));
    assert_eq!(blink_led(&mut s, true, true), Some((Command::On, Dispatched::Dropped)));
    assert_eq!(s.complete(), Some(Next::Start(sending(Command::Off))));
}

#[test]
fn the_level_steps_and_stops_at_both_ends() {
    let mut s = Scheduler::new();
    let mut level: u8 = 0;
    let mut seen = Vec::new();
    for _ in 0..9 {
        let (command, _) = change_pwm(&mut s, &mut level, true, false);
        assert_eq!(command, Command::SetLevel(level as u16));
        seen.push(level);
    }
    assert_eq!(seen, vec![32, 64, 96, 128, 160, 192, 224, 255, 255]);
    seen.clear();
    for _ in 0..9 {
        change_pwm(&mut s, &mut level, false, true);
        seen.push(level);
    }
    assert_eq!(seen, vec![223, 191, 159, 127, 95, 63, 31, 0, 0]);
    // Neither button, or the first one at the top with the second held too.
    level = 100;
    assert_eq!(change_pwm(&mut s, &mut level, false, false).0, Command::SetLevel(100));
    assert_eq!(change_pwm(&mut s, &mut level, true, true).0, Command::SetLevel(132));
    level = 255;
    assert_eq!(change_pwm(&mut s, &mut level, true, true).0, Command::SetLevel(223));
    level = 0;
    assert_eq!(change_pwm(&mut s, &mut level, false, true).0, Command::SetLevel(0));
}

#[test]
fn the_level_is_sent_whether_it_changed_or_not() {
    let mut s = Scheduler::new();
    let mut level: u8 = 10;
    assert_eq!(
        change_pwm(&mut s, &mut level, false, false),
        (Command::SetLevel(10), Dispatched::Started)
    );
    assert_eq!(s.current().unwrap().kind, FrameKind::Task(sending(Command::SetLevel(10))));
    assert_eq!(
        change_pwm(&mut s, &mut level, true, false),
        (Command::SetLevel(42), Dispatched::Queued)
    );
    assert_eq!(
        change_pwm(&mut s, &mut level, true, false),
        (Command::SetLevel(74), Dispatched::Dropped)
    );
}

#[test]
fn send_command_writes_the_frame() {
    assert_eq!(send_command(Command::On), vec![1, 1, 0]);
    assert_eq!(send_command(Command::SetLevel(255)), vec![4, 2, 0xff, 1, 0]);
}

#[test]
fn send_flips_while_the_button_is_down() {
    let mut is_on = false;
    assert_eq!(send(&mut is_on, false), 0);
    assert!(!is_on);
    assert_eq!(send(&mut is_on, true), 1);
    assert!(is_on);
    assert_eq!(send(&mut is_on, false), 0);
    assert!(is_on);
    assert_eq!(send(&mut is_on, true), 0);
    assert!(!is_on);
}

#[test]
fn sending_blink_alternates_every_second() {
    let mut s = Scheduler::new();
    let mut lit = false;
    assert_eq!(sending_blink(&mut lit, &mut s, at(0)), (1, Scheduled::Armed(at(1_000_000))));
    assert!(lit);
    // Its next run is outstanding: a second request finds no room.
    assert_eq!(sending_blink(&mut lit, &mut s, at(10)), (0, Scheduled::Dropped));
    assert!(!lit);
    assert_eq!(queue(&s), vec![(TaskId::SendingBlink, 1_000_000)]);
    assert_eq!(s.on_timer_interrupt(at(1_000_000)).started, Some(run(TaskId::SendingBlink)));
    assert_eq!(
        sending_blink(&mut lit, &mut s, at(1_000_000)),
        (1, Scheduled::Armed(at(2_000_000)))
    );
}

#[test]
fn sending_buffer_sends_its_word() {
    let mut s = Scheduler::new();
    let (word, again) = sending_buffer(&mut s, at(5));
    assert_eq!(word, vec![0xf0, 0x9f, 0x8d, 0xbb]);
    assert_eq!(again, Scheduled::Armed(at(1_000_005)));
    assert_eq!(s.head().unwrap().task, TaskId::SendingBuffer);
}

#[test]
fn two_lamps_alternate() {
    let mut s = Scheduler::new();
    assert_eq!(
        alternate(&mut s, at(0), Duration::secs(10), true),
        (false, true, Scheduled::Armed(at(10_000_000)))
    );
    assert_eq!(s.on_timer_interrupt(at(10_000_000)).started, Some(run(TaskId::Alternate)));
    assert_eq!(
        alternate(&mut s, at(10_000_000), Duration::secs(5), false),
        (true, false, Scheduled::Armed(at(15_000_000)))
    );
    assert_eq!(queue(&s), vec![(TaskId::Alternate, 15_000_000)]);
}

#[test]
fn blink_alternates_and_follows_the_lamp() {
    let mut board = init(2400);
    let s = &mut board.scheduler;
    let mut lamp = board.lamp;
    let mut now = 0u64;
    let mut seen = Vec::new();
    let script = [
        None,
        None,
        Some(Command::SetInterval(3)),
        Some(Command::SetLevel(100)),
        None,
        Some(Command::On),
        None,
        Some(Command::Off),
    ];
    for command in script {
        // `Blink` runs: it sets the duty and asks for its next run.
        let (duty, again) = blink(&mut lamp, s, at(now));
        assert_eq!(again, Scheduled::Armed(at(now + 1_000_000 * lamp.time as u64)));
        assert_eq!(s.pending(), 1);
        seen.push((now, duty));
        assert_eq!(s.complete(), Some(Next::Idle));
        if let Some(command) = command {
            lamp.apply(command);
        }
        now = s.next_deadline().unwrap().ticks;
        assert_eq!(s.on_timer_interrupt(at(now)).started, Some(run(TaskId::Blink)));
    }
    assert_eq!(
        seen,
        vec![
            (0, 0),
            (1_000_000, 19_200),
            (2_000_000, 0),
            (3_000_000, 19_200),
            (6_000_000, 0),
            (9_000_000, 880),
            (12_000_000, 0),
            (15_000_000, 2_040),
        ]
    );
}

#[test]
fn the_dark_phase_takes_any_brightness() {
    let mut s = Scheduler::new();
    let mut lamp = Lamp::new(u16::MAX);
    assert_eq!(blink(&mut lamp, &mut s, at(0)), (0, Scheduled::Armed(at(1_000_000))));
    assert_eq!(lamp, Lamp { brightness: u16::MAX, time: 1, powered: true });
    let mut full = Lamp { brightness: 8191, time: 0, powered: true };
    let mut other = Scheduler::new();
    assert_eq!(blink(&mut full, &mut other, at(7)), (65_528, Scheduled::Armed(at(7))));
}

#[test]
fn commands_change_the_lamp() {
    let mut lamp = Lamp::new(77);
    lamp.light(Command::SetInterval(9));
    assert_eq!(lamp, Lamp { brightness: 77, time: 1, powered: false });
    lamp.pace(Command::On);
    assert_eq!(lamp, Lamp { brightness: 77, time: 1, powered: false });
    lamp.light(Command::On);
    assert_eq!(lamp.brightness, 255);
    lamp.light(Command::Off);
    assert_eq!(lamp.brightness, 0);
    lamp.light(Command::SetLevel(31));
    assert_eq!(lamp.brightness, 70);
    lamp.pace(Command::SetInterval(9));
    assert_eq!(lamp, Lamp { brightness: 70, time: 9, powered: false });
}

#[test]
fn levels_are_rounded_by_the_table() {
    let table: [(u16, u16, u16); 8] = [
        (0, 10, 5),
        (11, 30, 20),
        (31, 80, 70),
        (81, 130, 110),
        (131, 170, 150),
        (171, 200, 180),
        (201, 230, 240),
        (231, u16::MAX, 255),
    ];
    for (low, high, brightness) in table {
        assert_eq!(quantize(low), brightness);
        assert_eq!(quantize(high), brightness);
        assert_eq!(quantize(low + (high - low) / 2), brightness);
    }
}

#[test]
fn levels_divide_the_full_duty() {
    assert_eq!(pwm_duty(2400, Command::On), Some(2400));
    assert_eq!(pwm_duty(2400, Command::Off), Some(0));
    assert_eq!(pwm_duty(2400, Command::SetInterval(4)), None);
    assert_eq!(pwm_duty(2400, Command::SetLevel(0)), Some(2400));
    assert_eq!(pwm_duty(2400, Command::SetLevel(9)), Some(2400));
    assert_eq!(pwm_duty(2400, Command::SetLevel(10)), None);
    assert_eq!(pwm_duty(2400, Command::SetLevel(11)), Some(218));
    assert_eq!(pwm_duty(2400, Command::SetLevel(100)), Some(24));
    assert_eq!(pwm_duty(2400, Command::SetLevel(249)), Some(9));
    assert_eq!(pwm_duty(2400, Command::SetLevel(250)), Some(0));
    assert_eq!(pwm_duty(2400, Command::SetLevel(u16::MAX)), Some(0));
    assert_eq!(pwm_duty(0, Command::SetLevel(100)), Some(0));
}

#[test]
fn four_bytes_of_text_are_handed_out() {
    let mut echo = EchoBuffer::new();
    assert_eq!(interupting(&mut echo, 0xf0), None);
    assert_eq!(interupting(&mut echo, 0x9f), None);
    assert_eq!(interupting(&mut echo, 0x8d), None);
    assert_eq!(echo.len(), 3);
    assert_eq!(interupting(&mut echo, 0xbb), Some(vec![0xf0, 0x9f, 0x8d, 0xbb]));
    assert_eq!(echo.len(), 0);
    for b in *b"beer" {
        let word = interupting(&mut echo, b);
        assert_eq!(word.is_some(), b == b'r');
    }
    assert_eq!(echo.len(), 0);
}

#[test]
fn four_bytes_that_are_no_text_start_a_new_word() {
    let mut echo = EchoBuffer::new();
    for b in [0xffu8, 0xff, 0xff, 0xff] {
        assert_eq!(interupting(&mut echo, b), None);
        assert!(echo.len() < 4);
    }
    assert_eq!(echo.len(), 0);
    assert_eq!(interupting(&mut echo, 0x41), None);
    assert_eq!(echo.len(), 1);
    for b in [0x42u8, 0x43] {
        assert_eq!(interupting(&mut echo, b), None);
    }
    assert_eq!(interupting(&mut echo, 0x44), Some(b"ABCD".to_vec()));
    for b in [0xf0u8, 0x9f, 0x8d, 0x41] {
        assert_eq!(interupting(&mut echo, b), None);
    }
    assert_eq!(echo.len(), 0);
}

#[test]
fn raw_bytes_switch_the_lamp() {
    assert_eq!(raw_switch(1), Some(true));
    assert_eq!(raw_switch(0), Some(false));
    assert!(raw_lamp(1));
    assert!(!raw_lamp(0));
    for noise in 2..=255u8 {
        assert_eq!(raw_switch(noise), None);
        assert!(!raw_lamp(noise));
    }
}
