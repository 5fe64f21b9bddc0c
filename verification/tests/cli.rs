use cmux_tui::cli::{
    cannot_open, check_dlcis, handshake_note, missing_port, port_description,
};
use cmux_tui::serial::at::AtError;
use cmux_tui::serial::params::FrameFormat;

#[test]
fn rejects_more_than_two_dlcis() {
    let text = check_dlcis(&vec![1, 3, 5]).unwrap_err();
    assert!(text.contains("最多"), "实际: {text}");
    assert_eq!(text, "最多同时观察 2 个子通道，收到 3 个");
}

#[test]
fn rejects_out_of_range_dlci() {
    let text = check_dlcis(&vec![99]).unwrap_err();
    assert!(text.contains("1-63"), "实际: {text}");
    assert_eq!(check_dlcis(&vec![1, 0]).unwrap_err(), "DLCI 必须在 1-63 之间，收到 0");
    assert_eq!(check_dlcis(&vec![64, 0]).unwrap_err(), "DLCI 必须在 1-63 之间，收到 64");
    assert!(check_dlcis(&vec![]).is_ok());
    assert!(check_dlcis(&vec![1, 63]).is_ok());
}

#[test]
fn missing_port_is_reported_with_available_ports() {
    let none = missing_port(&vec![]);
    assert!(none.contains("--port"), "实际: {none}");
    assert_eq!(none, "请用 --port 指定串口。当前可用：（无）");
    let some = missing_port(&vec!["/dev/ttyS0".to_string(), "/dev/ttyUSB0".to_string()]);
    assert_eq!(some, "请用 --port 指定串口。当前可用：/dev/ttyS0, /dev/ttyUSB0");
}

#[test]
fn what_is_said_before_the_screen_comes_up() {
    assert_eq!(
        port_description("/dev/ttyUSB0", 115200, FrameFormat::default()),
        "/dev/ttyUSB0 115200 8N1"
    );
    assert_eq!(cannot_open("/dev/x", "忙"), "打开 /dev/x 失败：忙");
    assert_eq!(
        handshake_note(&AtError::NoResponse),
        "AT 握手失败：模块无响应（可用 --no-at 跳过）"
    );
}
