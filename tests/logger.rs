use telllm::clock::{decimal_text, year_string, Stamp};
use telllm::logger::ChatLogger;

fn stamp() -> Stamp {
    Stamp { year: 2024, month: 1, day: 5, hour: 9, minute: 8, second: 7 }
}

#[test]
fn paths_of_client() {
    let l = ChatLogger::new("logs", "::1", &stamp());
    assert_eq!(l.client_dir, "logs/--1");
    assert_eq!(l.current_date, "05-01-24");
    assert_eq!(l.chats_dir(), "logs/--1/chats");
    assert_eq!(l.chat_file_path(), "logs/--1/chats/05-01-24.txt");
    assert_eq!(l.summary_file_path(), "logs/--1/summary.txt");
    let v4 = ChatLogger::new("/var/log", "10.0.0.2", &stamp());
    assert_eq!(v4.client_dir, "/var/log/10.0.0.2");
}

#[test]
fn message_line_uppercases_role() {
    assert_eq!(ChatLogger::message_line("Alice", "hi there", &stamp()), "[09:08:07] ALICE: hi there\n");
    assert_eq!(ChatLogger::message_line("AI", "ok", &stamp()), "[09:08:07] AI: ok\n");
}

#[test]
fn session_banners() {
    assert_eq!(
        ChatLogger::session_start_text(&stamp()),
        "\n--- Session started at 05-01-2024 09:08:07 ---\n\n"
    );
    assert_eq!(
        ChatLogger::session_end_text(&stamp()),
        "\n--- Session ended at 05-01-2024 09:08:07 ---\n\n"
    );
}

#[test]
fn decimal_padding() {
    assert_eq!(decimal_text(0, 2), "00");
    assert_eq!(decimal_text(7, 2), "07");
    assert_eq!(decimal_text(42, 2), "42");
    assert_eq!(decimal_text(123, 2), "123");
    assert_eq!(decimal_text(5, 4), "0005");
    assert_eq!(decimal_text(0, 0), "0");
}

#[test]
fn year_forms() {
    assert_eq!(year_string(2024), "2024");
    assert_eq!(year_string(33), "0033");
    assert_eq!(year_string(12345), "+12345");
    assert_eq!(year_string(-5), "-0005");
}

#[test]
fn two_digit_year_of_negative_year() {
    let s = Stamp { year: -1, month: 2, day: 3, hour: 0, minute: 0, second: 0 };
    assert_eq!(s.day_string(), "03-02-99");
}

#[test]
fn now_is_in_range() {
    let n = Stamp::now();
    assert!((1..=12).contains(&n.month));
    assert!((1..=31).contains(&n.day));
    assert!(n.hour < 24 && n.minute < 60 && n.second < 60);
    assert!(n.year > 2000);
}

#[test]
fn empty_log_root_gives_relative_client_dir() {
    let l = ChatLogger::new("", "127.0.0.1", &stamp());
    assert_eq!(l.client_dir, "127.0.0.1");
    assert_eq!(l.chats_dir(), "127.0.0.1/chats");
    assert_eq!(l.summary_file_path(), "127.0.0.1/summary.txt");
}

#[test]
fn log_root_with_trailing_slash() {
    let l = ChatLogger::new("logs/", "fe80::1", &stamp());
    assert_eq!(l.client_dir, "logs/fe80--1");
}

#[test]
fn transcript_path_follows_the_day() {
    let l = ChatLogger::new("logs", "10.1.1.1", &stamp());
    let later = Stamp { year: 2024, month: 1, day: 6, hour: 0, minute: 0, second: 1 };
    assert_eq!(l.day_file_path(&later), "logs/10.1.1.1/chats/06-01-24.txt");
    assert_eq!(l.day_file_path(&stamp()), l.chat_file_path());
}
