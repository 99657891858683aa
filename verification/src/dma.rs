//! DMA requests: the table of request numbers that a header defines, and the
//! attachment of the requests to the peripherals of a chip.

use vstd::prelude::*;
use crate::chip::{
    Chip, ChipView, Core, CoreView, DmaChannel, DmaChannelView, Peripheral, PeripheralView,
};
use crate::definitions::{
    defines, defines_each_name_once, definition, dmamux_definition, group, header_table,
    lemma_definition_is_recorded, lemma_definitions_each, lemma_one_entry_for_each_match,
    load_header, loaded_table, parse_header, text_view, yields,
};
use crate::error::ParseError;
use crate::header::HeaderKind;
use crate::number::{is_number, number_value, Radix};
use crate::pattern::regex_captures;
use crate::table::{lookup, SignalTable};
use crate::text::{
    first_segment, first_segment_of, has_separator, last_segment, last_segment_of, same_text,
    separator, starts_with,
};

verus! {

/// Reads the table of request numbers from the text of a DMA multiplexer
/// header.
///
/// A definition has the shape `#define HPM_DMA_SRC_<name> (0x<digits>UL)`,
/// where the digits are hexadecimal, with `a` to `f` in either case.
pub fn parse_dmamux_from_header(content: &str) -> (r: Result<SignalTable, ParseError>)
    ensures
        yields(r, header_table(HeaderKind::Dmamux, content@)),
        r matches Ok(table) ==> table@.len() > 0,
{
    parse_header(HeaderKind::Dmamux, content)
}

/// The label of the request `signal` within the peripheral `peripheral`.
///
/// A name with a separator is labelled by its last segment, with `CH` before
/// it for a timer. A name without one is the only request of its peripheral:
/// it is labelled `GLOBAL` for an I2C and by the peripheral's name otherwise.
pub open spec fn signal_label(signal: Seq<char>, peripheral: Seq<char>) -> Seq<char> {
    if signal.contains(separator()) {
        if "GPTMR"@.is_prefix_of(signal) || "NTMR"@.is_prefix_of(signal) {
            "CH"@ + last_segment(signal)
        } else {
            last_segment(signal)
        }
    } else if "I2C"@.is_prefix_of(signal) {
        "GLOBAL"@
    } else {
        peripheral
    }
}

/// Computes the label of the request `signal_name` within the peripheral
/// `periph_name`.
pub fn parse_signal(signal_name: &str, periph_name: &str) -> (label: String)
    ensures
        label@ == signal_label(signal_name@, periph_name@),
{
    if has_separator(signal_name) {
        let suffix = last_segment_of(signal_name);
        if starts_with(signal_name, "GPTMR") || starts_with(signal_name, "NTMR") {
            String::from_str("CH").concat(suffix)
        } else {
            String::from_str(suffix)
        }
    } else if starts_with(signal_name, "I2C") {
        String::from_str("GLOBAL")
    } else {
        String::from_str(periph_name)
    }
}

/// Whether the request `signal` belongs to the peripheral `peripheral`: the
/// first segment of its name is the peripheral's name.
pub open spec fn takes_request(peripheral: Seq<char>, signal: Seq<char>) -> bool {
    first_segment(signal) == peripheral
}

/// The name under which every request is routed.
pub open spec fn dmamux_name() -> Seq<char> {
    "DMAMUX"@
}

/// The record that the entry `entry` of a table leaves on the peripheral
/// `peripheral`, which takes it.
pub open spec fn channel(peripheral: Seq<char>, entry: (Seq<char>, u8)) -> DmaChannelView {
    DmaChannelView {
        signal: signal_label(entry.0, peripheral),
        dmamux: Some(dmamux_name()),
        request: entry.1,
    }
}

/// The records that the entries `entries` leave on the peripheral
/// `peripheral`, in the order of the entries.
pub open spec fn dmamux_channels(peripheral: Seq<char>, entries: Seq<(Seq<char>, u8)>) -> Seq<
    DmaChannelView,
> {
    entries.filter(|entry: (Seq<char>, u8)| takes_request(peripheral, entry.0)).map_values(
        |entry: (Seq<char>, u8)| channel(peripheral, entry),
    )
}

/// The peripheral `peripheral` once the records `channels` follow those it
/// had.
pub open spec fn with_channels(
    peripheral: PeripheralView,
    channels: Seq<DmaChannelView>,
) -> PeripheralView {
    PeripheralView { dma_channels: peripheral.dma_channels + channels, ..peripheral }
}

/// The core `core` once each of its peripherals has the records that
/// `entries` leave on it.
pub open spec fn with_dmamux(core: CoreView, entries: Seq<(Seq<char>, u8)>) -> CoreView {
    CoreView {
        peripherals: core.peripherals.map_values(
            |p: PeripheralView| with_channels(p, dmamux_channels(p.name, entries)),
        ),
        ..core
    }
}

/// Records for one more entry: those for the entries before it, and its own
/// where the peripheral takes it.
pub proof fn lemma_dmamux_channels_step(
    peripheral: Seq<char>,
    entries: Seq<(Seq<char>, u8)>,
    k: int,
)
    requires
        0 <= k < entries.len(),
    ensures
        dmamux_channels(peripheral, entries.take(k + 1)) == if takes_request(
            peripheral,
            entries[k].0,
        ) {
            dmamux_channels(peripheral, entries.take(k)).push(channel(peripheral, entries[k]))
        } else {
            dmamux_channels(peripheral, entries.take(k))
        },
{
    let pred = |entry: (Seq<char>, u8)| takes_request(peripheral, entry.0);
    let longer = entries.take(k + 1);
    assert(longer.drop_last() =~= entries.take(k));
    assert(longer.last() == entries[k]);
    reveal(Seq::filter);
    assert(longer.filter(pred) == if pred(entries[k]) {
        entries.take(k).filter(pred).push(entries[k])
    } else {
        entries.take(k).filter(pred)
    });
    if pred(entries[k]) {
        assert(dmamux_channels(peripheral, longer) =~= dmamux_channels(
            peripheral,
            entries.take(k),
        ).push(channel(peripheral, entries[k])));
    }
}

/// Attaches to `peripheral` the requests of `table` that belong to it.
pub fn attach_channels(peripheral: &mut Peripheral, table: &SignalTable)
    ensures
        final(peripheral)@ == with_channels(
            old(peripheral)@,
            dmamux_channels(old(peripheral)@.name, table@),
        ),
{
    let n = table.len();
    let mut k: usize = 0;
    proof {
        reveal(Seq::filter);
        assert(table@.take(0) =~= Seq::<(Seq<char>, u8)>::empty());
        assert(dmamux_channels(old(peripheral)@.name, table@.take(0)) =~= Seq::<
            DmaChannelView,
        >::empty());
        assert(peripheral@.dma_channels =~= peripheral@.dma_channels + Seq::<
            DmaChannelView,
        >::empty());
    }
    while k < n
        invariant
            k <= n,
            n == table@.len(),
            peripheral@ == with_channels(
                old(peripheral)@,
                dmamux_channels(old(peripheral)@.name, table@.take(k as int)),
            ),
        decreases n - k,
    {
        let signal_name = table.name_at(k);
        proof {
            lemma_dmamux_channels_step(old(peripheral)@.name, table@, k as int);
        }
        if same_text(peripheral.name.as_str(), first_segment_of(signal_name)) {
            let record = DmaChannel {
                signal: parse_signal(signal_name, peripheral.name.as_str()),
                dmamux: Some(String::from_str("DMAMUX")),
                request: table.value_at(k),
            };
            let ghost so_far = dmamux_channels(old(peripheral)@.name, table@.take(k as int));
            let ghost before = peripheral@;
            peripheral.dma_channels.push(record);
            proof {
                assert(record@ == channel(old(peripheral)@.name, table@[k as int]));
                assert(peripheral@.dma_channels =~= before.dma_channels.push(record@));
                assert(before.dma_channels.push(record@) =~= old(peripheral)@.dma_channels
                    + so_far.push(record@));
            }
        }
        k += 1;
    }
    proof {
        assert(table@.take(n as int) =~= table@);
    }
}

/// Attaches to each peripheral of `core` the requests of `table` that belong
/// to it.
pub fn attach_dmamux(core: &mut Core, table: &SignalTable)
    ensures
        final(core)@ == with_dmamux(old(core)@, table@),
{
    let n = core.peripherals.len();
    let mut j: usize = 0;
    while j < n
        invariant
            j <= n,
            n == old(core).peripherals@.len(),
            n == core.peripherals@.len(),
            core.interrupts == old(core).interrupts,
            core.include_dmamux == old(core).include_dmamux,
            forall|i: int|
                0 <= i < j ==> (#[trigger] core.peripherals@[i])@ == with_channels(
                    old(core).peripherals@[i]@,
                    dmamux_channels(old(core).peripherals@[i]@.name, table@),
                ),
            forall|i: int|
                j <= i < n ==> #[trigger] core.peripherals@[i] == old(core).peripherals@[i],
        decreases n - j,
    {
        attach_channels(&mut core.peripherals[j], table);
        j += 1;
    }
    proof {
        assert(core@.peripherals =~= with_dmamux(old(core)@, table@).peripherals);
    }
}

/// Whether the DMA requests of `core` are still to be loaded.
pub open spec fn pending(core: CoreView) -> bool {
    core.include_dmamux is Some
}

/// Whether the DMA requests of some core of `chip` are still to be loaded.
pub open spec fn has_pending(chip: ChipView) -> bool {
    exists|i: int| 0 <= i < chip.cores.len() && pending(#[trigger] chip.cores[i])
}

/// Whether `i` is the first of `cores` whose DMA requests are still to be
/// loaded.
pub open spec fn is_first_pending(cores: Seq<CoreView>, i: int) -> bool {
    &&& 0 <= i < cores.len()
    &&& pending(cores[i])
    &&& forall|j: int| 0 <= j < i ==> !pending(#[trigger] cores[j])
}

/// The first of `cores` whose DMA requests are still to be loaded.
pub open spec fn first_pending(cores: Seq<CoreView>) -> int {
    choose|i: int| is_first_pending(cores, i)
}

/// `core` with its mark taken away: its requests count as loaded.
pub open spec fn consumed(core: CoreView) -> CoreView {
    CoreView { include_dmamux: None, ..core }
}

/// What loading the requests makes of `core`, where `entries` is the table
/// of the header, if a header is to be had.
///
/// A core without the mark stays as it is. A core with it loses it, and
/// its peripherals take their requests from the table; without a header they
/// take none.
pub open spec fn included_core(core: CoreView, entries: Option<Seq<(Seq<char>, u8)>>) -> CoreView {
    if !pending(core) {
        core
    } else {
        match entries {
            Some(entries) => with_dmamux(consumed(core), entries),
            None => consumed(core),
        }
    }
}

/// `chip` once its first marked core has lost its mark; `chip` itself where no
/// core is marked.
///
/// This is what is left of a chip whose header was needed and gave no table.
pub open spec fn first_mark_taken(chip: ChipView) -> ChipView {
    if has_pending(chip) {
        let first = first_pending(chip.cores);
        ChipView { cores: chip.cores.update(first, consumed(chip.cores[first])), ..chip }
    } else {
        chip
    }
}

/// The number of cores of `chip` whose DMA requests are still to be loaded.
pub open spec fn marked_cores(chip: ChipView) -> nat {
    chip.cores.filter(|c: CoreView| pending(c)).len()
}

/// How loading the requests of `chip` ends, where `header` is the text of
/// the file found at the path of its DMA multiplexer header.
///
/// It fails where a core is marked and the header gives an error; without a
/// marked core the header is not read at all.
pub open spec fn include_result(chip: ChipView, header: Option<Seq<char>>) -> Result<
    (),
    ParseError,
> {
    match loaded_table(HeaderKind::Dmamux, chip.name, header) {
        Some(Err(e)) => if has_pending(chip) {
            Err(e)
        } else {
            Ok(())
        },
        _ => Ok(()),
    }
}

/// What loading the requests makes of `chip`, where `header` is the text of
/// the file found at the path of its DMA multiplexer header.
///
/// Where the header gives an error, the first marked core has lost its mark
/// and nothing else has changed.
pub open spec fn included_chip(chip: ChipView, header: Option<Seq<char>>) -> ChipView {
    match loaded_table(HeaderKind::Dmamux, chip.name, header) {
        Some(Err(_)) => first_mark_taken(chip),
        Some(Ok(entries)) => ChipView {
            cores: chip.cores.map_values(|c: CoreView| included_core(c, Some(entries))),
            ..chip
        },
        None => ChipView {
            cores: chip.cores.map_values(
                |c: CoreView| included_core(c, None::<Seq<(Seq<char>, u8)>>),
            ),
            ..chip
        },
    }
}

/// Before a marked core, or at it, stands a first marked core.
pub proof fn lemma_first_pending_before(cores: Seq<CoreView>, k: int) -> (first: int)
    requires
        0 <= k < cores.len(),
        pending(cores[k]),
    ensures
        first <= k,
        is_first_pending(cores, first),
    decreases k,
{
    if exists|j: int| 0 <= j < k && pending(#[trigger] cores[j]) {
        let j = choose|j: int| 0 <= j < k && pending(#[trigger] cores[j]);
        lemma_first_pending_before(cores, j)
    } else {
        k
    }
}

/// A chip with a marked core has a first marked core, and `first_pending` is
/// that core.
pub proof fn lemma_has_first_pending(chip: ChipView)
    requires
        has_pending(chip),
    ensures
        is_first_pending(chip.cores, first_pending(chip.cores)),
{
    let k = choose|i: int| 0 <= i < chip.cores.len() && pending(#[trigger] chip.cores[i]);
    let first = lemma_first_pending_before(chip.cores, k);
}

/// Taking the first mark takes one mark and leaves every other core, and the
/// name of the chip, as they were.
pub proof fn lemma_first_mark_taken(chip: ChipView)
    requires
        has_pending(chip),
    ensures
        first_mark_taken(chip).name == chip.name,
        first_mark_taken(chip).cores.len() == chip.cores.len(),
        first_mark_taken(chip).cores[first_pending(chip.cores)] == consumed(
            chip.cores[first_pending(chip.cores)],
        ),
        forall|j: int|
            0 <= j < chip.cores.len() && j != first_pending(chip.cores)
                ==> #[trigger] first_mark_taken(chip).cores[j] == chip.cores[j],
{
    lemma_has_first_pending(chip);
}

/// There is one first marked core at most.
pub proof fn lemma_first_pending(cores: Seq<CoreView>, i: int)
    requires
        is_first_pending(cores, i),
    ensures
        first_pending(cores) == i,
{
    let k = first_pending(cores);
    assert(is_first_pending(cores, k));
    if k < i {
        assert(!pending(cores[k]));
    }
    if i < k {
        assert(!pending(cores[i]));
    }
}

/// A chip without a marked core is left as it is, whatever the header holds,
/// and loading its requests succeeds.
pub proof fn lemma_nothing_pending(chip: ChipView, header: Option<Seq<char>>)
    requires
        !has_pending(chip),
    ensures
        included_chip(chip, header) == chip,
        include_result(chip, header) is Ok,
{
    assert forall|i: int| 0 <= i < chip.cores.len() implies !pending(#[trigger] chip.cores[i]) by {}
    assert(included_chip(chip, header).cores =~= chip.cores);
}

/// Once the requests of a chip are loaded, no core is marked any more, and
/// loading them again changes nothing, whatever the header then holds.
pub proof fn lemma_include_once(chip: ChipView, header: Option<Seq<char>>, again: Option<Seq<char>>)
    requires
        include_result(chip, header) is Ok,
    ensures
        !has_pending(included_chip(chip, header)),
        included_chip(included_chip(chip, header), again) == included_chip(chip, header),
        include_result(included_chip(chip, header), again) is Ok,
{
    let after = included_chip(chip, header);
    if has_pending(chip) {
        assert forall|i: int| 0 <= i < after.cores.len() implies !pending(
            #[trigger] after.cores[i],
        ) by {}
    } else {
        lemma_nothing_pending(chip, header);
    }
    lemma_nothing_pending(after, again);
}

/// Whether the DMA requests of some core of `chip` are still to be loaded.
///
/// Only then is the header of the chip needed.
pub fn needs_dmamux_header(chip: &Chip) -> (needed: bool)
    ensures
        needed == has_pending(chip@),
{
    let n = chip.cores.len();
    let mut i: usize = 0;
    while i < n
        invariant
            i <= n,
            n == chip.cores@.len(),
            forall|j: int| 0 <= j < i ==> !pending(#[trigger] chip@.cores[j]),
        decreases n - i,
    {
        assert(chip@.cores[i as int] == chip.cores@[i as int]@);
        if chip.cores[i].include_dmamux.is_some() {
            return true;
        }
        i += 1;
    }
    false
}

/// Counts the cores of `chip` whose DMA requests are still to be loaded.
pub fn count_marked_cores(chip: &Chip) -> (count: usize)
    ensures
        count == marked_cores(chip@),
{
    let ghost marked = |c: CoreView| pending(c);
    let n = chip.cores.len();
    let mut count: usize = 0;
    let mut i: usize = 0;
    proof {
        reveal(Seq::filter);
        assert(chip@.cores.take(0) =~= Seq::<CoreView>::empty());
    }
    while i < n
        invariant
            i <= n,
            n == chip.cores@.len(),
            marked == |c: CoreView| pending(c),
            count <= i,
            count == chip@.cores.take(i as int).filter(marked).len(),
        decreases n - i,
    {
        proof {
            let longer = chip@.cores.take(i + 1);
            assert(longer.drop_last() =~= chip@.cores.take(i as int));
            assert(longer.last() == chip.cores@[i as int]@);
            reveal(Seq::filter);
        }
        if chip.cores[i].include_dmamux.is_some() {
            count += 1;
        }
        i += 1;
    }
    proof {
        assert(chip@.cores.take(n as int) =~= chip@.cores);
    }
    count
}

/// Takes the mark of the first marked core of `chip`, and changes nothing
/// else; a chip without a marked core is left as it is.
///
/// This is for the caller that needed the header of the chip and could not
/// read it: the chip is then as it is after a header that gave no table.
pub fn take_first_mark(chip: &mut Chip)
    ensures
        final(chip)@ == first_mark_taken(old(chip)@),
{
    let ghost before = chip@;
    let n = chip.cores.len();
    let mut i: usize = 0;
    while i < n
        invariant
            i <= n,
            n == chip.cores@.len(),
            before == old(chip)@,
            chip == old(chip),
            forall|j: int| 0 <= j < i ==> !pending(#[trigger] before.cores[j]),
        decreases n - i,
    {
        assert(chip.cores@[i as int]@ == before.cores[i as int]);
        if chip.cores[i].include_dmamux.is_some() {
            chip.cores[i].include_dmamux = None;
            proof {
                assert(is_first_pending(before.cores, i as int));
                lemma_first_pending(before.cores, i as int);
                assert(has_pending(before));
                assert(chip@.cores =~= before.cores.update(
                    i as int,
                    consumed(before.cores[i as int]),
                ));
            }
            return;
        }
        i += 1;
    }
    assert(!has_pending(before));
}

/// Loads the DMA requests of `chip` from its DMA multiplexer header.
///
/// `header` is the text of the file at the path that
/// [`get_dmamux_header_path`](crate::locator::get_dmamux_header_path) gives
/// for the chip's name, or `None` where no file lies there. Every marked core
/// loses its mark, and each of its peripherals takes the requests whose names
/// have the peripheral's name for their first segment. Without a header the
/// marks are lost and nothing is attached. A chip without a marked core is
/// not touched, and the header is then not even read.
///
/// Where the header gives no table, the first marked core has lost its mark
/// and nothing else has changed.
pub fn handle_chip_dmamux_include(chip: &mut Chip, header: Option<&str>) -> (r: Result<
    (),
    ParseError,
>)
    ensures
        r == include_result(old(chip)@, text_view(header)),
        final(chip)@ == included_chip(old(chip)@, text_view(header)),
        !has_pending(old(chip)@) ==> final(chip)@ == old(chip)@ && r is Ok,
        r is Ok ==> !has_pending(final(chip)@),
{
    let ghost before = chip@;
    let ghost outcome = loaded_table(HeaderKind::Dmamux, before.name, text_view(header));
    let ghost entries = match outcome {
        Some(Ok(entries)) => Some(entries),
        _ => None,
    };
    let n = chip.cores.len();
    let mut loaded: Option<Option<SignalTable>> = None;
    let mut i: usize = 0;
    while i < n
        invariant
            i <= n,
            n == chip.cores@.len(),
            before == old(chip)@,
            before.cores.len() == n,
            chip.name == old(chip).name,
            outcome == loaded_table(HeaderKind::Dmamux, before.name, text_view(header)),
            entries == match outcome {
                Some(Ok(entries)) => Some(entries),
                _ => None,
            },
            forall|j: int| i <= j < n ==> (#[trigger] chip.cores@[j])@ == before.cores[j],
            forall|j: int|
                0 <= j < i ==> (#[trigger] chip.cores@[j])@ == included_core(
                    before.cores[j],
                    entries,
                ),
            loaded is None ==> forall|j: int| 0 <= j < i ==> !pending(#[trigger] before.cores[j]),
            match loaded {
                None => true,
                Some(None) => outcome is None,
                Some(Some(table)) => outcome == Some(
                    Ok::<Seq<(Seq<char>, u8)>, ParseError>(table@),
                ),
            },
        decreases n - i,
    {
        assert(chip.cores@[i as int]@ == before.cores[i as int]);
        if chip.cores[i].include_dmamux.is_some() {
            chip.cores[i].include_dmamux = None;
            assert(chip.cores@[i as int]@ == consumed(before.cores[i as int]));
            if loaded.is_none() {
                match load_header(HeaderKind::Dmamux, chip.name.as_str(), header) {
                    Ok(table) => {
                        loaded = Some(table);
                    },
                    Err(e) => {
                        proof {
                            assert(is_first_pending(before.cores, i as int));
                            lemma_first_pending(before.cores, i as int);
                            assert(has_pending(before));
                            assert(chip@.cores =~= before.cores.update(
                                i as int,
                                consumed(before.cores[i as int]),
                            ));
                        }
                        return Err(e);
                    },
                }
            }
            match &loaded {
                Some(Some(table)) => {
                    attach_dmamux(&mut chip.cores[i], table);
                },
                _ => {},
            }
        }
        i += 1;
    }
    proof {
        if loaded is None {
            assert(!has_pending(before));
            lemma_nothing_pending(before, text_view(header));
            assert(chip@.cores =~= before.cores);
        } else {
            assert(chip@.cores =~= included_chip(before, text_view(header)).cores);
        }
        lemma_include_once(before, text_view(header), text_view(header));
        if !has_pending(before) {
            lemma_nothing_pending(before, text_view(header));
        }
    }
    Ok(())
}

/// Every definition of a header is in the header's table, decoded from
/// hexadecimal digits.
///
/// Let the header `text` yield a table, and let one of its matches hold the
/// name `name` and the number `0x` followed by `digits`, with no later
/// definition of `name`. Then `digits` denote a number of eight bits, and the
/// table gives that number for `name`. Where no name is defined twice, the
/// table has as many entries as the header has matches.
pub proof fn lemma_dmamux_table_holds_definition(
    text: Seq<char>,
    matches: Seq<Seq<Option<Seq<char>>>>,
    i: int,
    name: Seq<char>,
    digits: Seq<char>,
)
    requires
        regex_captures(HeaderKind::Dmamux.pattern(), text) == Some(matches),
        header_table(HeaderKind::Dmamux, text) is Ok,
        0 <= i < matches.len(),
        group(matches[i], 1) == Some(name),
        group(matches[i], 2) == Some("0x"@ + digits),
        forall|j: int|
            i < j < matches.len() ==> !defines(HeaderKind::Dmamux, #[trigger] matches[j], name),
    ensures
        is_number(digits, Radix::Hexadecimal),
        number_value(digits, Radix::Hexadecimal) <= u8::MAX,
        lookup(header_table(HeaderKind::Dmamux, text).unwrap(), name) == Some(
            number_value(digits, Radix::Hexadecimal) as u8,
        ),
        defines_each_name_once(HeaderKind::Dmamux, matches) ==> header_table(
            HeaderKind::Dmamux,
            text,
        ).unwrap().len() == matches.len(),
{
    reveal_strlit("0x");
    let number = "0x"@ + digits;
    assert(number.skip(2) =~= digits);
    assert("0x"@ =~= number.subrange(0, 2));
    lemma_definitions_each(HeaderKind::Dmamux, matches, i);
    assert(definition(HeaderKind::Dmamux, matches[i]) == dmamux_definition(name, number));
    lemma_definition_is_recorded(HeaderKind::Dmamux, matches, i);
    if defines_each_name_once(HeaderKind::Dmamux, matches) {
        lemma_one_entry_for_each_match(HeaderKind::Dmamux, matches);
    }
}

/// A request whose name has no separator, and is not that of an I2C, is
/// labelled by the name of its peripheral.
pub proof fn lemma_plain_request_is_labelled_by_peripheral(
    signal: Seq<char>,
    peripheral: Seq<char>,
)
    requires
        !signal.contains(separator()),
        !"I2C"@.is_prefix_of(signal),
    ensures
        signal_label(signal, peripheral) == peripheral,
{
}

/// The label of a request that a peripheral takes is not empty, unless the
/// name of the request is empty or ends in a separator.
pub proof fn lemma_request_label_is_not_empty(signal: Seq<char>, peripheral: Seq<char>)
    requires
        takes_request(peripheral, signal),
        signal.len() > 0,
        signal.last() != separator(),
    ensures
        signal_label(signal, peripheral).len() > 0,
{
    reveal_strlit("GLOBAL");
    signal.index_of_last_ensures(separator());
    signal.index_of_first_ensures(separator());
}

/// Attaching requests removes no record: those that a peripheral had come
/// first, unchanged.
pub proof fn lemma_channels_are_kept(peripheral: PeripheralView, channels: Seq<DmaChannelView>)
    ensures
        peripheral.dma_channels.is_prefix_of(with_channels(peripheral, channels).dma_channels),
        with_channels(peripheral, channels).interrupts == peripheral.interrupts,
        with_channels(peripheral, channels).name == peripheral.name,
{
}

} // verus!
