use hpm_data_gen::chip::{Chip, Core, DmaChannel, Interrupt, InterruptDescriptor, Peripheral};
use hpm_data_gen::interrupts::{attach_interrupts, fill_core_interrupts, fill_peripheral_interrupts};

fn peripheral(name: &str) -> Peripheral {
    Peripheral { name: name.to_string(), dma_channels: vec![], interrupts: None }
}

fn line(name: &str, number: u32) -> InterruptDescriptor {
    InterruptDescriptor { name: name.to_string(), number }
}

fn record(signal: &str, interrupt: &str) -> Interrupt {
    Interrupt { signal: signal.to_string(), interrupt: interrupt.to_string() }
}

fn make_core(names: &[&str], lines: &[&str]) -> Core {
    Core {
        peripherals: names.iter().map(|n| peripheral(n)).collect(),
        interrupts: lines.iter().enumerate().map(|(i, n)| line(n, i as u32)).collect(),
        include_dmamux: Some("dmamux.yaml".to_string()),
    }
}

#[test]
fn interrupts_are_attached_to_the_peripherals_that_begin_their_name() {
    let mut chip = Chip {
        name: "HPM6750xVMx".to_string(),
        cores: vec![make_core(
            &["GPIO0", "ACMP", "HDMA", "CAN0", "SPI0"],
            &["GPIO0_A", "GPIO0_B", "ACMP_1", "HDMA", "CAN0", "CAN01", "CAN1"],
        )],
    };
    assert_eq!(fill_peripheral_interrupts(&mut chip), Ok(()));
    let p = &chip.cores[0].peripherals;
    assert_eq!(p[0].interrupts, Some(vec![record("PA", "GPIO0_A"), record("PB", "GPIO0_B")]));
    assert_eq!(p[1].interrupts, Some(vec![record("CH1", "ACMP_1")]));
    assert_eq!(p[2].interrupts, Some(vec![record("GLOBAL", "HDMA")]));
    assert_eq!(p[3].interrupts, Some(vec![record("GLOBAL", "CAN0"), record("GLOBAL", "CAN01")]));
    assert_eq!(p[4].interrupts, None);
}

#[test]
fn a_uart_takes_only_the_interrupt_of_its_own_name() {
    let mut chip = Chip {
        name: "HPM6750xVMx".to_string(),
        cores: vec![make_core(
            &["UART1", "UART10", "UART"],
            &["UART10_ERR", "UART1", "UART10", "UART1_RX"],
        )],
    };
    assert_eq!(fill_peripheral_interrupts(&mut chip), Ok(()));
    let p = &chip.cores[0].peripherals;
    assert_eq!(p[0].interrupts, Some(vec![record("GLOBAL", "UART1")]));
    assert_eq!(p[1].interrupts, Some(vec![record("GLOBAL", "UART10")]));
    assert_eq!(p[2].interrupts, None);
}

#[test]
fn a_uart_does_not_take_the_interrupt_of_a_longer_name() {
    let mut target = peripheral("UART1");
    attach_interrupts(&mut target, &vec![line("UART10_ERR", 3)]);
    assert_eq!(target.interrupts, None);
    attach_interrupts(&mut target, &vec![line("UART1", 4)]);
    assert_eq!(target.interrupts, Some(vec![record("GLOBAL", "UART1")]));
}

#[test]
fn the_list_of_interrupts_is_made_only_when_needed() {
    let mut none = peripheral("SPI0");
    attach_interrupts(&mut none, &vec![line("SPI1", 1), line("I2C0", 2)]);
    assert_eq!(none.interrupts, None);
    attach_interrupts(&mut none, &vec![]);
    assert_eq!(none.interrupts, None);

    let mut empty = peripheral("SPI0");
    empty.interrupts = Some(vec![]);
    attach_interrupts(&mut empty, &vec![line("SPI1", 1)]);
    assert_eq!(empty.interrupts, Some(vec![]));
    attach_interrupts(&mut empty, &vec![line("SPI0", 1)]);
    assert_eq!(empty.interrupts, Some(vec![record("GLOBAL", "SPI0")]));
}

#[test]
fn interrupts_that_were_there_stay_first() {
    let mut target = peripheral("GPIO0");
    target.interrupts = Some(vec![record("OLD", "GPIO0_OLD")]);
    target.dma_channels = vec![DmaChannel { signal: "X".to_string(), dmamux: None, request: 3 }];
    attach_interrupts(
        &mut target,
        &vec![line("GPIO0_A", 1), line("GPIO1_A", 2), line("GPIO0_B", 3)],
    );
    assert_eq!(
        target.interrupts,
        Some(vec![record("OLD", "GPIO0_OLD"), record("PA", "GPIO0_A"), record("PB", "GPIO0_B")])
    );
    assert_eq!(
        target.dma_channels,
        vec![DmaChannel { signal: "X".to_string(), dmamux: None, request: 3 }]
    );
    assert_eq!(target.name, "GPIO0");
}

#[test]
fn attaching_twice_attaches_twice() {
    let mut target = peripheral("HDMA");
    let lines = vec![line("HDMA", 34)];
    attach_interrupts(&mut target, &lines);
    attach_interrupts(&mut target, &lines);
    assert_eq!(target.interrupts, Some(vec![record("GLOBAL", "HDMA"), record("GLOBAL", "HDMA")]));
}

#[test]
fn a_peripheral_without_a_name_takes_every_interrupt() {
    let mut target = peripheral("");
    attach_interrupts(&mut target, &vec![line("GPIO0_A", 1), line("UART1", 2)]);
    assert_eq!(target.interrupts, Some(vec![record("PA", "GPIO0_A"), record("GLOBAL", "UART1")]));
}

#[test]
fn each_core_is_filled_from_its_own_interrupts() {
    let mut chip = Chip {
        name: "HPM6750xVMx".to_string(),
        cores: vec![
            make_core(&["GPIO0", "SPI0"], &["GPIO0_A"]),
            make_core(&["GPIO0", "SPI0"], &["SPI0"]),
        ],
    };
    let before = chip.clone();
    assert_eq!(fill_peripheral_interrupts(&mut chip), Ok(()));
    assert_eq!(chip.cores[0].peripherals[0].interrupts, Some(vec![record("PA", "GPIO0_A")]));
    assert_eq!(chip.cores[0].peripherals[1].interrupts, None);
    assert_eq!(chip.cores[1].peripherals[0].interrupts, None);
    assert_eq!(chip.cores[1].peripherals[1].interrupts, Some(vec![record("GLOBAL", "SPI0")]));
    assert_eq!(chip.name, before.name);
    assert_eq!(chip.cores[0].interrupts, before.cores[0].interrupts);
    assert_eq!(chip.cores[0].include_dmamux, before.cores[0].include_dmamux);
}

#[test]
fn a_core_is_filled_alone() {
    let mut target = make_core(&["ACMP0", "ACMP1"], &["ACMP0_0", "ACMP0_1", "ACMP1_0"]);
    fill_core_interrupts(&mut target);
    assert_eq!(
        target.peripherals[0].interrupts,
        Some(vec![record("CH0", "ACMP0_0"), record("CH1", "ACMP0_1")])
    );
    assert_eq!(target.peripherals[1].interrupts, Some(vec![record("CH0", "ACMP1_0")]));
}

#[test]
fn a_chip_without_cores_or_interrupts_stays_as_it_is() {
    let mut chip = Chip { name: "HPM5301".to_string(), cores: vec![] };
    assert_eq!(fill_peripheral_interrupts(&mut chip), Ok(()));
    assert_eq!(chip, Chip { name: "HPM5301".to_string(), cores: vec![] });
    let mut chip = Chip { name: "HPM5301".to_string(), cores: vec![make_core(&["UART0"], &[])] };
    let before = chip.clone();
    assert_eq!(fill_peripheral_interrupts(&mut chip), Ok(()));
    assert_eq!(chip, before);
}
