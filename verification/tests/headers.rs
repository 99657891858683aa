use hpm_data_gen::definitions::{
    parse_header, parse_header_with, read_definition, table_from_captures,
};
use hpm_data_gen::dma::parse_dmamux_from_header;
use hpm_data_gen::error::ParseError;
use hpm_data_gen::interrupts::{
    fix_interrupt_naming, load_interrupts_from_header, parse_interrupts_from_header,
};
use hpm_data_gen::header::HeaderKind;

const DMAMUX_HEADER: &str = "\
/* DMA request sources */
#ifndef HPM_DMAMUX_SRC_H
#define HPM_DMAMUX_SRC_H

#define HPM_DMA_SRC_UART0_RX                           (0x8UL)   /* UART0 Receive */
#define HPM_DMA_SRC_UART0_TX                           (0x9UL)   /* UART0 Transmit */
#define HPM_DMA_SRC_GPTMR0_0                           (0x40UL)  /* GPTMR0 channel 0 */
#define HPM_DMA_SRC_I2C0                               (0x1AUL)  /* I2C0 */
#define HPM_DMA_SRC_ADC0 (0xFFUL)

#endif
";

const IRQ_HEADER: &str = "\
#ifndef HPM_SOC_IRQ_H
#define HPM_SOC_IRQ_H

#define IRQn_GPIO0_A                   1       /* GPIO0_A IRQ */
#define IRQn_UART1                     28      /* UART1 IRQ */
#define IRQn_HDMA    34    /* HDMA IRQ */
#define IRQn_DAC 100 /* DAC IRQ */
#define IRQn_NOCOMMENT 101

#endif
";

fn groups(name: Option<&str>, number: Option<&str>) -> Vec<Option<String>> {
    vec![
        Some("whole match".to_string()),
        name.map(|s| s.to_string()),
        number.map(|s| s.to_string()),
    ]
}

#[test]
fn dmamux_definitions_are_read_from_hexadecimal() {
    let table = parse_dmamux_from_header(DMAMUX_HEADER).unwrap();
    assert_eq!(table.len(), 5);
    assert_eq!(table.get("UART0_RX"), Some(8));
    assert_eq!(table.get("UART0_TX"), Some(9));
    assert_eq!(table.get("GPTMR0_0"), Some(64));
    assert_eq!(table.get("I2C0"), Some(26));
    assert_eq!(table.get("ADC0"), Some(255));
    assert_eq!(table.get("HPM_DMAMUX_SRC_H"), None);
}

#[test]
fn dmamux_entries_keep_the_order_of_the_header() {
    let table = parse_dmamux_from_header(DMAMUX_HEADER).unwrap();
    assert_eq!(table.name_at(0), "UART0_RX");
    assert_eq!(table.name_at(1), "UART0_TX");
    assert_eq!(table.name_at(2), "GPTMR0_0");
    assert_eq!(table.name_at(3), "I2C0");
    assert_eq!(table.name_at(4), "ADC0");
    assert_eq!(table.value_at(2), 64);
}

#[test]
fn a_single_dmamux_definition_yields_a_single_entry() {
    let table = parse_dmamux_from_header("#define HPM_DMA_SRC_X (0x1FUL)").unwrap();
    assert_eq!(table.len(), 1);
    assert_eq!(table.get("X"), Some(31));
}

#[test]
fn hexadecimal_digits_are_read_in_either_case() {
    let table = parse_dmamux_from_header("#define HPM_DMA_SRC_UART0_RX (0x1aUL)").unwrap();
    assert_eq!(table.len(), 1);
    assert_eq!(table.get("UART0_RX"), Some(26));

    let table = parse_dmamux_from_header(
        "#define HPM_DMA_SRC_A (0x1AUL)\n\
         #define HPM_DMA_SRC_B (0xffUL)\n\
         #define HPM_DMA_SRC_C (0xaBUL)\n\
         #define HPM_DMA_SRC_D (0x0cUL)\n",
    )
    .unwrap();
    assert_eq!(table.len(), 4);
    assert_eq!(table.get("A"), Some(26));
    assert_eq!(table.get("B"), Some(255));
    assert_eq!(table.get("C"), Some(171));
    assert_eq!(table.get("D"), Some(12));
}

#[test]
fn a_lower_case_number_beyond_eight_bits_fails() {
    assert_eq!(
        parse_dmamux_from_header("#define HPM_DMA_SRC_A (0x1ffUL)"),
        Err(ParseError::NumericOverflow)
    );
}

#[test]
fn digits_beyond_hexadecimal_end_the_number() {
    assert_eq!(
        parse_dmamux_from_header("#define HPM_DMA_SRC_A (0x1gUL)"),
        Err(ParseError::NoDefinitions)
    );
}

#[test]
fn a_dmamux_header_without_definitions_fails() {
    assert_eq!(parse_dmamux_from_header(""), Err(ParseError::NoDefinitions));
    assert_eq!(parse_dmamux_from_header("\n\n"), Err(ParseError::NoDefinitions));
    assert_eq!(parse_dmamux_from_header(IRQ_HEADER), Err(ParseError::NoDefinitions));
    assert_eq!(
        parse_dmamux_from_header("#define HPM_DMA_SRC_X (0x1f)"),
        Err(ParseError::NoDefinitions)
    );
    assert_eq!(
        parse_dmamux_from_header("#define HPM_DMA_SRC_X (12UL)"),
        Err(ParseError::NoDefinitions)
    );
}

#[test]
fn a_dmamux_number_beyond_eight_bits_fails() {
    assert_eq!(
        parse_dmamux_from_header(
            "#define HPM_DMA_SRC_A (0x1UL)\n#define HPM_DMA_SRC_B (0x100UL)\n"
        ),
        Err(ParseError::NumericOverflow)
    );
    assert_eq!(
        parse_dmamux_from_header("#define HPM_DMA_SRC_B (0xFFFFFFFFFFFFFFFFFFFFFFFFUL)\n"),
        Err(ParseError::NumericOverflow)
    );
}

#[test]
fn the_later_of_two_definitions_of_a_name_counts() {
    let table = parse_dmamux_from_header(
        "#define HPM_DMA_SRC_A (0x1UL)\n\
         #define HPM_DMA_SRC_B (0x2UL)\n\
         #define HPM_DMA_SRC_A (0x3UL)\n",
    )
    .unwrap();
    assert_eq!(table.len(), 2);
    assert_eq!(table.get("A"), Some(3));
    assert_eq!(table.get("B"), Some(2));
    assert_eq!(table.name_at(0), "A");
}

#[test]
fn interrupt_definitions_are_read_from_decimal() {
    let table = parse_interrupts_from_header(IRQ_HEADER).unwrap();
    assert_eq!(table.len(), 4);
    assert_eq!(table.get("GPIO0_A"), Some(1));
    assert_eq!(table.get("UART1"), Some(28));
    assert_eq!(table.get("HDMA"), Some(34));
}

#[test]
fn an_interrupt_definition_needs_its_comment() {
    let table = parse_interrupts_from_header(IRQ_HEADER).unwrap();
    assert_eq!(table.get("NOCOMMENT"), None);
    assert_eq!(
        parse_interrupts_from_header("#define IRQn_X 12\n"),
        Err(ParseError::NoDefinitions)
    );
    let with_comment = parse_interrupts_from_header("#define IRQn_X  12  /* c */").unwrap();
    assert_eq!(with_comment.len(), 1);
    assert_eq!(with_comment.get("X"), Some(12));
}

#[test]
fn interrupt_names_are_put_right() {
    let table = parse_interrupts_from_header(IRQ_HEADER).unwrap();
    assert_eq!(table.get("DAC0"), Some(100));
    assert_eq!(table.get("DAC"), None);
}

#[test]
fn only_the_listed_names_are_changed() {
    assert_eq!(fix_interrupt_naming("DAC"), "DAC0");
    assert_eq!(fix_interrupt_naming("DAC0"), "DAC0");
    assert_eq!(fix_interrupt_naming("DAC1"), "DAC1");
    assert_eq!(fix_interrupt_naming("ADC"), "ADC");
    assert_eq!(fix_interrupt_naming("PEWDG"), "PEWDG");
    assert_eq!(fix_interrupt_naming(""), "");
}

#[test]
fn an_interrupt_header_without_definitions_fails() {
    assert_eq!(parse_interrupts_from_header(""), Err(ParseError::NoDefinitions));
    assert_eq!(parse_interrupts_from_header(DMAMUX_HEADER), Err(ParseError::NoDefinitions));
}

#[test]
fn an_interrupt_number_beyond_eight_bits_fails() {
    assert_eq!(
        parse_interrupts_from_header("#define IRQn_A 255 /* a */\n#define IRQn_B 256 /* b */\n"),
        Err(ParseError::NumericOverflow)
    );
    let table = parse_interrupts_from_header("#define IRQn_A 255 /* a */\n").unwrap();
    assert_eq!(table.get("A"), Some(255));
}

#[test]
fn an_interrupt_number_in_other_digits_is_malformed() {
    assert_eq!(
        parse_interrupts_from_header("#define IRQn_A ٣ /* a */\n"),
        Err(ParseError::MalformedDefinition)
    );
}

#[test]
fn parse_header_reads_either_kind() {
    assert_eq!(
        parse_header(HeaderKind::Dmamux, DMAMUX_HEADER),
        parse_dmamux_from_header(DMAMUX_HEADER)
    );
    assert_eq!(
        parse_header(HeaderKind::Interrupts, IRQ_HEADER),
        parse_interrupts_from_header(IRQ_HEADER)
    );
}

#[test]
fn patterns_are_regular_expressions() {
    assert_eq!(
        HeaderKind::Dmamux.pattern_text(),
        r"#define\s+HPM_DMA_SRC_(\w+)\s+\((0x[0-9A-Fa-f]+)UL\)"
    );
    assert_eq!(HeaderKind::Interrupts.pattern_text(), r"#define\s+IRQn_(\w+)\s+(\d+)\s+/\*.*\*/");
}

#[test]
fn a_pattern_that_is_no_regular_expression_is_an_error() {
    assert_eq!(
        parse_header_with(HeaderKind::Dmamux, r"#define\s+(\w+", DMAMUX_HEADER),
        Err(ParseError::InvalidPattern)
    );
    assert_eq!(
        parse_header_with(HeaderKind::Interrupts, "(", ""),
        Err(ParseError::InvalidPattern)
    );
}

#[test]
fn another_pattern_finds_other_definitions() {
    let table = parse_header_with(
        HeaderKind::Dmamux,
        r"(?m)^\s*DMA_(\w+)\s*=\s*(0x[0-9A-F]+),",
        "  DMA_UART0_RX = 0x8,\n  DMA_UART0_TX = 0x9,\n  IRQ_UART0 = 0x1,\n",
    )
    .unwrap();
    assert_eq!(table.len(), 2);
    assert_eq!(table.get("UART0_RX"), Some(8));
    assert_eq!(table.get("UART0_TX"), Some(9));
}

#[test]
fn a_pattern_without_groups_gives_malformed_definitions() {
    assert_eq!(
        parse_header_with(HeaderKind::Dmamux, "#define", DMAMUX_HEADER),
        Err(ParseError::MalformedDefinition)
    );
    assert_eq!(
        parse_header_with(HeaderKind::Interrupts, r"IRQn_(\w+)|(\d+)", "IRQn_A 12"),
        Err(ParseError::MalformedDefinition)
    );
}

#[test]
fn a_pattern_that_did_not_compile_is_an_error() {
    assert_eq!(table_from_captures(HeaderKind::Dmamux, &None), Err(ParseError::InvalidPattern));
    assert_eq!(table_from_captures(HeaderKind::Interrupts, &None), Err(ParseError::InvalidPattern));
}

#[test]
fn no_match_is_an_error() {
    assert_eq!(
        table_from_captures(HeaderKind::Dmamux, &Some(vec![])),
        Err(ParseError::NoDefinitions)
    );
}

#[test]
fn matches_are_recorded_in_order() {
    let found = Some(vec![
        groups(Some("A"), Some("0x01")),
        groups(Some("B"), Some("0xfe")),
        groups(Some("A"), Some("0x7")),
    ]);
    let table = table_from_captures(HeaderKind::Dmamux, &found).unwrap();
    assert_eq!(table.len(), 2);
    assert_eq!(table.name_at(0), "A");
    assert_eq!(table.value_at(0), 7);
    assert_eq!(table.name_at(1), "B");
    assert_eq!(table.value_at(1), 254);
}

#[test]
fn the_first_match_that_fails_decides_the_error() {
    let found = Some(vec![
        groups(Some("A"), Some("0x01")),
        groups(Some("B"), Some("0x100")),
        groups(Some("C"), Some("12")),
    ]);
    assert_eq!(table_from_captures(HeaderKind::Dmamux, &found), Err(ParseError::NumericOverflow));
    let found = Some(vec![
        groups(Some("A"), Some("0x01")),
        groups(Some("C"), Some("12")),
        groups(Some("B"), Some("0x100")),
    ]);
    assert_eq!(
        table_from_captures(HeaderKind::Dmamux, &found),
        Err(ParseError::MalformedDefinition)
    );
}

#[test]
fn a_match_without_its_groups_is_malformed() {
    assert_eq!(
        read_definition(HeaderKind::Dmamux, &vec![]),
        Err(ParseError::MalformedDefinition)
    );
    assert_eq!(
        read_definition(HeaderKind::Dmamux, &vec![Some("m".to_string()), Some("A".to_string())]),
        Err(ParseError::MalformedDefinition)
    );
    assert_eq!(
        read_definition(HeaderKind::Dmamux, &groups(None, Some("0x1"))),
        Err(ParseError::MalformedDefinition)
    );
    assert_eq!(
        read_definition(HeaderKind::Interrupts, &groups(Some("A"), None)),
        Err(ParseError::MalformedDefinition)
    );
}

#[test]
fn a_match_gives_its_name_and_number() {
    assert_eq!(
        read_definition(HeaderKind::Dmamux, &groups(Some("UART0_RX"), Some("0x8"))),
        Ok(("UART0_RX".to_string(), 8))
    );
    assert_eq!(
        read_definition(HeaderKind::Dmamux, &groups(Some("UART0_RX"), Some("8"))),
        Err(ParseError::MalformedDefinition)
    );
    assert_eq!(
        read_definition(HeaderKind::Dmamux, &groups(Some("UART0_RX"), Some("0x"))),
        Err(ParseError::MalformedDefinition)
    );
    assert_eq!(
        read_definition(HeaderKind::Interrupts, &groups(Some("DAC"), Some("34"))),
        Ok(("DAC0".to_string(), 34))
    );
    assert_eq!(
        read_definition(HeaderKind::Interrupts, &groups(Some("HDMA"), Some("0x8"))),
        Err(ParseError::MalformedDefinition)
    );
}

#[test]
fn interrupts_are_loaded_for_a_known_family() {
    let table = load_interrupts_from_header("HPM6750xVMx", Some(IRQ_HEADER)).unwrap().unwrap();
    assert_eq!(table.len(), 4);
    assert_eq!(table.get("HDMA"), Some(34));
}

#[test]
fn no_header_is_no_error() {
    assert_eq!(load_interrupts_from_header("HPM6750xVMx", None), Ok(None));
    assert_eq!(load_interrupts_from_header("STM32F407", None), Ok(None));
    assert_eq!(load_interrupts_from_header("STM32F407", Some(IRQ_HEADER)), Ok(None));
    assert_eq!(load_interrupts_from_header("STM32F407", Some("")), Ok(None));
}

#[test]
fn a_header_without_definitions_is_an_error_when_loaded() {
    assert_eq!(
        load_interrupts_from_header("HPM6750xVMx", Some("")),
        Err(ParseError::NoDefinitions)
    );
    assert_eq!(
        load_interrupts_from_header("HPM5301", Some("#define IRQn_A 999 /* a */")),
        Err(ParseError::NumericOverflow)
    );
}
