use hpm_data_gen::dma::parse_signal;
use hpm_data_gen::interrupts::parse_interrupt_signal;

#[test]
fn timer_request_is_labelled_as_channel() {
    assert_eq!(parse_signal("GPTMR0_1", "GPTMR0"), "CH1");
    assert_eq!(parse_signal("NTMR1_3", "NTMR1"), "CH3");
}

#[test]
fn timer_request_keeps_its_whole_last_segment() {
    // The last segment follows `CH` as it stands, whatever it holds.
    assert_eq!(parse_signal("GPTMR0_CH1", "GPTMR0"), "CHCH1");
}

#[test]
fn request_is_labelled_by_its_last_segment() {
    assert_eq!(parse_signal("UART0_RX", "UART0"), "RX");
    assert_eq!(parse_signal("I2S0_RX", "I2S0"), "RX");
    assert_eq!(parse_signal("MOT0_A_B", "MOT0"), "B");
}

#[test]
fn i2c_request_without_separator_is_global() {
    assert_eq!(parse_signal("I2C0", "I2C0"), "GLOBAL");
    assert_eq!(parse_signal("I2C3", "anything"), "GLOBAL");
}

#[test]
fn i2c_request_with_separator_is_labelled_by_its_last_segment() {
    assert_eq!(parse_signal("I2C0_TX", "I2C0"), "TX");
}

#[test]
fn plain_request_is_labelled_by_the_peripheral() {
    assert_eq!(parse_signal("ADC0", "ADC0"), "ADC0");
    assert_eq!(parse_signal("PDM", "MICROPHONE"), "MICROPHONE");
}

#[test]
fn request_that_ends_in_a_separator_has_an_empty_last_segment() {
    assert_eq!(parse_signal("UART0_", "UART0"), "");
    assert_eq!(parse_signal("GPTMR0_", "GPTMR0"), "CH");
}

#[test]
fn gpio_interrupt_is_labelled_as_port() {
    assert_eq!(parse_interrupt_signal("GPIO0_A"), "PA");
    assert_eq!(parse_interrupt_signal("GPIO1_Z"), "PZ");
}

#[test]
fn comparator_interrupt_is_labelled_as_channel() {
    assert_eq!(parse_interrupt_signal("ACMP0_1"), "CH1");
}

#[test]
fn interrupt_is_labelled_by_its_last_segment() {
    assert_eq!(parse_interrupt_signal("UART10_ERR"), "ERR");
    assert_eq!(parse_interrupt_signal("CAN0_RX_WARN"), "WARN");
}

#[test]
fn interrupt_without_separator_is_global() {
    assert_eq!(parse_interrupt_signal("HDMA"), "GLOBAL");
    assert_eq!(parse_interrupt_signal("GPIO0"), "GLOBAL");
    assert_eq!(parse_interrupt_signal(""), "GLOBAL");
}
