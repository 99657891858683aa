//! Interrupts: the table of interrupt numbers that a header defines, and the
//! attachment of a core's interrupts to its peripherals.

use vstd::prelude::*;
use crate::chip::{
    Chip, ChipView, Core, CoreView, Interrupt, InterruptDescriptor, InterruptDescriptorView,
    InterruptView, Peripheral, PeripheralView,
};
use crate::definitions::{
    defines, defines_each_name_once, definition, group, header_table, interrupt_definition,
    lemma_definition_is_recorded, lemma_definitions_each, lemma_one_entry_for_each_match,
    load_header, loaded_table, parse_header, text_view, yields,
};
use crate::error::ParseError;
use crate::header::HeaderKind;
use crate::number::{is_number, number_value, Radix};
use crate::pattern::regex_captures;
use crate::table::{lookup, SignalTable};
use crate::text::{
    has_separator, last_segment, last_segment_of, pairs_view, same_text, separator, starts_with,
};

verus! {

/// The names that the interrupt header gives otherwise than they are in use,
/// each with the name in use.
pub open spec fn naming_fixes() -> Seq<(Seq<char>, Seq<char>)> {
    seq![("DAC"@, "DAC0"@)]
}

/// `name`, or what the first entry of `fixes` for exactly `name` puts in its
/// place.
pub open spec fn substitute(fixes: Seq<(Seq<char>, Seq<char>)>, name: Seq<char>) -> Seq<char>
    decreases fixes.len(),
{
    if fixes.len() == 0 {
        name
    } else if fixes[0].0 == name {
        fixes[0].1
    } else {
        substitute(fixes.drop_first(), name)
    }
}

/// The name in use for the interrupt that the header calls `name`.
pub open spec fn fixed_name(name: Seq<char>) -> Seq<char> {
    substitute(naming_fixes(), name)
}

/// The naming fixes as a table to search.
fn naming_fix_table() -> (table: Vec<(&'static str, &'static str)>)
    ensures
        pairs_view(table@) == naming_fixes(),
{
    let table = vec![("DAC", "DAC0")];
    assert(pairs_view(table@) =~= naming_fixes());
    table
}

/// Gives the name in use for the interrupt that the header calls `name`.
pub fn fix_interrupt_naming(name: &str) -> (fixed: String)
    ensures
        fixed@ == fixed_name(name@),
{
    let table = naming_fix_table();
    let n = table.len();
    let mut i: usize = 0;
    assert(naming_fixes().skip(0) =~= naming_fixes());
    while i < n
        invariant
            i <= n,
            n == table@.len(),
            pairs_view(table@) == naming_fixes(),
            fixed_name(name@) == substitute(naming_fixes().skip(i as int), name@),
        decreases n - i,
    {
        let (from, to) = table[i];
        proof {
            let rest = naming_fixes().skip(i as int);
            assert(rest[0] == naming_fixes()[i as int]);
            assert(pairs_view(table@)[i as int] == (from@, to@));
            assert(rest.drop_first() =~= naming_fixes().skip(i + 1));
        }
        if same_text(from, name) {
            return String::from_str(to);
        }
        i += 1;
    }
    String::from_str(name)
}

/// The label of the interrupt `name` within its peripheral.
///
/// A name with a separator is labelled by its last segment, with `P` before it
/// for a GPIO port and `CH` for a comparator channel. A name without one is
/// the peripheral's only interrupt.
pub open spec fn interrupt_label(name: Seq<char>) -> Seq<char> {
    if name.contains(separator()) {
        if "GPIO"@.is_prefix_of(name) {
            "P"@ + last_segment(name)
        } else if "ACMP"@.is_prefix_of(name) {
            "CH"@ + last_segment(name)
        } else {
            last_segment(name)
        }
    } else {
        "GLOBAL"@
    }
}

/// Computes the label of the interrupt `irq_name` within its peripheral.
pub fn parse_interrupt_signal(irq_name: &str) -> (label: String)
    ensures
        label@ == interrupt_label(irq_name@),
{
    if has_separator(irq_name) {
        let suffix = last_segment_of(irq_name);
        if starts_with(irq_name, "GPIO") {
            String::from_str("P").concat(suffix)
        } else if starts_with(irq_name, "ACMP") {
            String::from_str("CH").concat(suffix)
        } else {
            String::from_str(suffix)
        }
    } else {
        String::from_str("GLOBAL")
    }
}

/// Whether the peripheral `peripheral` takes the interrupt `interrupt`.
///
/// It does when its name begins the interrupt's name. A UART takes only the
/// interrupt of exactly its own name: `UART1` begins `UART10` too.
pub open spec fn takes_interrupt(peripheral: Seq<char>, interrupt: Seq<char>) -> bool {
    &&& peripheral.is_prefix_of(interrupt)
    &&& "UART"@.is_prefix_of(peripheral) ==> peripheral == interrupt
}

/// The record that the interrupt `name` leaves on a peripheral that takes it.
pub open spec fn interrupt_record(name: Seq<char>) -> InterruptView {
    InterruptView { signal: interrupt_label(name), interrupt: name }
}

/// The records that the interrupts `interrupts` leave on the peripheral
/// `peripheral`, in the order of the interrupts.
pub open spec fn interrupt_records(peripheral: Seq<char>, interrupts: Seq<Seq<char>>) -> Seq<
    InterruptView,
> {
    interrupts.filter(|name: Seq<char>| takes_interrupt(peripheral, name)).map_values(
        |name: Seq<char>| interrupt_record(name),
    )
}

/// The peripheral `peripheral` once the records `records` are attached to it:
/// they follow those it had, and where there are none nothing changes.
pub open spec fn with_interrupts(
    peripheral: PeripheralView,
    records: Seq<InterruptView>,
) -> PeripheralView {
    if records.len() == 0 {
        peripheral
    } else {
        PeripheralView {
            interrupts: Some(
                match peripheral.interrupts {
                    Some(list) => list + records,
                    None => records,
                },
            ),
            ..peripheral
        }
    }
}

/// The names of the interrupt lines whose views are `lines`.
pub open spec fn line_names(lines: Seq<InterruptDescriptorView>) -> Seq<Seq<char>> {
    lines.map_values(|line: InterruptDescriptorView| line.name)
}

/// The names of the interrupt lines `lines` of a core.
pub open spec fn names_of(lines: Seq<InterruptDescriptor>) -> Seq<Seq<char>> {
    line_names(lines.map_values(|line: InterruptDescriptor| line@))
}

/// Records for one more interrupt: those for the interrupts before it, and its
/// own where the peripheral takes it.
pub proof fn lemma_interrupt_records_step(peripheral: Seq<char>, interrupts: Seq<Seq<char>>, k: int)
    requires
        0 <= k < interrupts.len(),
    ensures
        interrupt_records(peripheral, interrupts.take(k + 1)) == if takes_interrupt(
            peripheral,
            interrupts[k],
        ) {
            interrupt_records(peripheral, interrupts.take(k)).push(interrupt_record(interrupts[k]))
        } else {
            interrupt_records(peripheral, interrupts.take(k))
        },
{
    let pred = |name: Seq<char>| takes_interrupt(peripheral, name);
    let longer = interrupts.take(k + 1);
    assert(longer.drop_last() =~= interrupts.take(k));
    assert(longer.last() == interrupts[k]);
    reveal(Seq::filter);
    assert(longer.filter(pred) == if pred(interrupts[k]) {
        interrupts.take(k).filter(pred).push(interrupts[k])
    } else {
        interrupts.take(k).filter(pred)
    });
    if pred(interrupts[k]) {
        assert(interrupt_records(peripheral, longer) =~= interrupt_records(
            peripheral,
            interrupts.take(k),
        ).push(interrupt_record(interrupts[k])));
    }
}

/// Attaches to `peripheral` the interrupts among `lines` that it takes.
pub fn attach_interrupts(peripheral: &mut Peripheral, lines: &Vec<InterruptDescriptor>)
    ensures
        final(peripheral)@ == with_interrupts(
            old(peripheral)@,
            interrupt_records(old(peripheral)@.name, names_of(lines@)),
        ),
{
    let ghost names = names_of(lines@);
    let n = lines.len();
    let mut k: usize = 0;
    proof {
        reveal(Seq::filter);
        assert(names.take(0) =~= Seq::<Seq<char>>::empty());
        assert(interrupt_records(old(peripheral)@.name, names.take(0)) =~= Seq::<
            InterruptView,
        >::empty());
    }
    while k < n
        invariant
            k <= n,
            n == lines@.len(),
            names == names_of(lines@),
            peripheral@ == with_interrupts(
                old(peripheral)@,
                interrupt_records(old(peripheral)@.name, names.take(k as int)),
            ),
        decreases n - k,
    {
        let line = &lines[k];
        proof {
            assert(names[k as int] == line.name@);
            lemma_interrupt_records_step(old(peripheral)@.name, names, k as int);
        }
        let takes = starts_with(line.name.as_str(), peripheral.name.as_str()) && !(starts_with(
            peripheral.name.as_str(),
            "UART",
        ) && !same_text(peripheral.name.as_str(), line.name.as_str()));
        if takes {
            let record = Interrupt {
                signal: parse_interrupt_signal(line.name.as_str()),
                interrupt: line.name.clone(),
            };
            let ghost before = peripheral@;
            let ghost so_far = interrupt_records(old(peripheral)@.name, names.take(k as int));
            match &mut peripheral.interrupts {
                Some(list) => {
                    list.push(record);
                },
                None => {
                    let mut list: Vec<Interrupt> = Vec::new();
                    list.push(record);
                    peripheral.interrupts = Some(list);
                },
            }
            proof {
                let now = peripheral@;
                assert(record@ == interrupt_record(names[k as int]));
                assert(now.name == before.name);
                assert(now.dma_channels == before.dma_channels);
                match before.interrupts {
                    Some(list) => {
                        assert(now.interrupts == Some(list.push(record@)));
                    },
                    None => {
                        assert(now.interrupts == Some(seq![record@]));
                    },
                }
                let grown = so_far.push(record@);
                match old(peripheral)@.interrupts {
                    Some(first) => {
                        assert(first + grown =~= if so_far.len() == 0 {
                            first.push(record@)
                        } else {
                            (first + so_far).push(record@)
                        });
                    },
                    None => {
                        assert(grown =~= if so_far.len() == 0 {
                            seq![record@]
                        } else {
                            so_far.push(record@)
                        });
                    },
                }
                assert(now.interrupts == with_interrupts(old(peripheral)@, grown).interrupts);
                assert(now == with_interrupts(old(peripheral)@, grown));
            }
        }
        k += 1;
    }
    proof {
        assert(names.take(n as int) =~= names);
    }
}

/// The core `core` once each of its peripherals has the records of the
/// core's interrupts that it takes.
pub open spec fn filled_core(core: CoreView) -> CoreView {
    CoreView {
        peripherals: core.peripherals.map_values(
            |p: PeripheralView|
                with_interrupts(p, interrupt_records(p.name, line_names(core.interrupts))),
        ),
        ..core
    }
}

/// The chip `chip` once the interrupts of each core are attached to the
/// core's peripherals.
pub open spec fn filled_chip(chip: ChipView) -> ChipView {
    ChipView { cores: chip.cores.map_values(|c: CoreView| filled_core(c)), ..chip }
}

/// Attaches the interrupts of `core` to its peripherals.
pub fn fill_core_interrupts(core: &mut Core)
    ensures
        final(core)@ == filled_core(old(core)@),
{
    let n = core.peripherals.len();
    let mut j: usize = 0;
    assert(old(core)@.interrupts =~= core.interrupts@.map_values(|l: InterruptDescriptor| l@));
    while j < n
        invariant
            j <= n,
            n == old(core).peripherals@.len(),
            n == core.peripherals@.len(),
            core.interrupts == old(core).interrupts,
            core.include_dmamux == old(core).include_dmamux,
            old(core)@.interrupts == core.interrupts@.map_values(|l: InterruptDescriptor| l@),
            forall|i: int|
                0 <= i < j ==> (#[trigger] core.peripherals@[i])@ == with_interrupts(
                    old(core).peripherals@[i]@,
                    interrupt_records(
                        old(core).peripherals@[i]@.name,
                        line_names(old(core)@.interrupts),
                    ),
                ),
            forall|i: int|
                j <= i < n ==> #[trigger] core.peripherals@[i] == old(core).peripherals@[i],
        decreases n - j,
    {
        attach_interrupts(&mut core.peripherals[j], &core.interrupts);
        j += 1;
    }
    proof {
        assert(core@.peripherals =~= filled_core(old(core)@).peripherals);
    }
}

/// Attaches the interrupts of each core of `chip` to the core's peripherals.
///
/// A peripheral takes the interrupts whose names begin with its own name; a
/// UART takes only the interrupt of exactly its name. Each interrupt taken
/// leaves a record after those the peripheral had. This never fails.
pub fn fill_peripheral_interrupts(chip: &mut Chip) -> (r: Result<(), ParseError>)
    ensures
        r is Ok,
        final(chip)@ == filled_chip(old(chip)@),
{
    let n = chip.cores.len();
    let mut i: usize = 0;
    while i < n
        invariant
            i <= n,
            n == old(chip).cores@.len(),
            n == chip.cores@.len(),
            chip.name == old(chip).name,
            forall|j: int|
                0 <= j < i ==> (#[trigger] chip.cores@[j])@ == filled_core(old(chip).cores@[j]@),
            forall|j: int| i <= j < n ==> #[trigger] chip.cores@[j] == old(chip).cores@[j],
        decreases n - i,
    {
        fill_core_interrupts(&mut chip.cores[i]);
        i += 1;
    }
    proof {
        assert(chip@.cores =~= filled_chip(old(chip)@).cores);
    }
    Ok(())
}

/// Reads the table of interrupt numbers from the text of an interrupt header.
///
/// A definition has the shape `#define IRQn_<name> <digits> /* ... */`; the
/// comment has to be there.
pub fn parse_interrupts_from_header(content: &str) -> (r: Result<SignalTable, ParseError>)
    ensures
        yields(r, header_table(HeaderKind::Interrupts, content@)),
        r matches Ok(table) ==> table@.len() > 0,
{
    parse_header(HeaderKind::Interrupts, content)
}

/// Reads the table of interrupt numbers of the chip `chip_name`.
///
/// `header` is the text of the file at the path that
/// [`get_interrupts_header_path`](crate::locator::get_interrupts_header_path)
/// gives for the chip's name, or `None` where no file lies there. Where no
/// header is to be had the result is `Ok(None)`: that is no error.
pub fn load_interrupts_from_header(chip_name: &str, header: Option<&str>) -> (r: Result<
    Option<SignalTable>,
    ParseError,
>)
    ensures
        match r {
            Ok(None) => loaded_table(HeaderKind::Interrupts, chip_name@, text_view(header)) is None,
            Ok(Some(table)) => loaded_table(HeaderKind::Interrupts, chip_name@, text_view(header))
                == Some(Ok::<Seq<(Seq<char>, u8)>, ParseError>(table@)),
            Err(e) => loaded_table(HeaderKind::Interrupts, chip_name@, text_view(header)) == Some(
                Err::<Seq<(Seq<char>, u8)>, ParseError>(e),
            ),
        },
        r matches Ok(Some(table)) ==> table@.len() > 0,
{
    load_header(HeaderKind::Interrupts, chip_name, header)
}

/// Every definition of a header is in the header's table, decoded from
/// decimal digits, under the name in use.
///
/// Let the header `text` yield a table, and let one of its matches hold the
/// name `name` and the number `digits`, with no later definition of the same
/// name in use. Then `digits` denote a number of eight bits, and the table
/// gives that number for the name in use for `name`. Where no name is defined
/// twice, the table has as many entries as the header has matches.
pub proof fn lemma_interrupt_table_holds_definition(
    text: Seq<char>,
    matches: Seq<Seq<Option<Seq<char>>>>,
    i: int,
    name: Seq<char>,
    digits: Seq<char>,
)
    requires
        regex_captures(HeaderKind::Interrupts.pattern(), text) == Some(matches),
        header_table(HeaderKind::Interrupts, text) is Ok,
        0 <= i < matches.len(),
        group(matches[i], 1) == Some(name),
        group(matches[i], 2) == Some(digits),
        forall|j: int|
            i < j < matches.len() ==> !defines(
                HeaderKind::Interrupts,
                #[trigger] matches[j],
                fixed_name(name),
            ),
    ensures
        is_number(digits, Radix::Decimal),
        number_value(digits, Radix::Decimal) <= u8::MAX,
        lookup(header_table(HeaderKind::Interrupts, text).unwrap(), fixed_name(name)) == Some(
            number_value(digits, Radix::Decimal) as u8,
        ),
        defines_each_name_once(HeaderKind::Interrupts, matches) ==> header_table(
            HeaderKind::Interrupts,
            text,
        ).unwrap().len() == matches.len(),
{
    lemma_definitions_each(HeaderKind::Interrupts, matches, i);
    assert(definition(HeaderKind::Interrupts, matches[i]) == interrupt_definition(name, digits));
    lemma_definition_is_recorded(HeaderKind::Interrupts, matches, i);
    if defines_each_name_once(HeaderKind::Interrupts, matches) {
        lemma_one_entry_for_each_match(HeaderKind::Interrupts, matches);
    }
}

/// The one name that the header gives otherwise than it is in use is `DAC`,
/// for `DAC0`; every other name passes unchanged.
pub proof fn lemma_fixed_name(name: Seq<char>)
    ensures
        fixed_name(name) == if name == "DAC"@ {
            "DAC0"@
        } else {
            name
        },
{
    reveal_with_fuel(substitute, 2);
    assert(naming_fixes().drop_first() =~= Seq::<(Seq<char>, Seq<char>)>::empty());
}

/// A UART takes the interrupt of exactly its own name and no other.
pub proof fn lemma_uart_takes_only_its_own(peripheral: Seq<char>, interrupt: Seq<char>)
    requires
        "UART"@.is_prefix_of(peripheral),
    ensures
        takes_interrupt(peripheral, interrupt) <==> peripheral == interrupt,
{
    if peripheral == interrupt {
        assert(peripheral =~= interrupt.subrange(0, peripheral.len() as int));
    }
}

/// The label of an interrupt is not empty, unless the name of the interrupt
/// ends in a separator.
pub proof fn lemma_interrupt_label_is_not_empty(name: Seq<char>)
    requires
        name.len() > 0 ==> name.last() != separator(),
    ensures
        interrupt_label(name).len() > 0,
{
    reveal_strlit("GLOBAL");
    name.index_of_last_ensures(separator());
}

/// Attaching interrupts removes no record: those that a peripheral had come
/// first, unchanged.
pub proof fn lemma_interrupts_are_kept(peripheral: PeripheralView, records: Seq<InterruptView>)
    ensures
        with_interrupts(peripheral, records).name == peripheral.name,
        with_interrupts(peripheral, records).dma_channels == peripheral.dma_channels,
        match (peripheral.interrupts, with_interrupts(peripheral, records).interrupts) {
            (Some(earlier), Some(later)) => earlier.is_prefix_of(later),
            (Some(_), None) => false,
            (None, _) => true,
        },
{
}

} // verus!
