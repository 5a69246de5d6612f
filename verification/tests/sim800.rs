use ehatrom::sim800::{command_line, Sim800Config};

#[test]
fn config_create() {
    let config = Sim800Config {
        uart_port: "/dev/serial0".to_string(),
        baudrate: 9600,
        sim_pin: Some("1234".to_string()),
        apn: Some("internet".to_string()),
    };
    assert_eq!(config.baudrate, 9600);
}

#[test]
fn command_line_ends_in_cr_lf() {
    assert_eq!(command_line("AT"), vec![b'A', b'T', 13, 10]);
    assert_eq!(command_line(""), vec![13, 10]);
    assert_eq!(command_line("AT+CMGF=1"), b"AT+CMGF=1\r\n".to_vec());
}
