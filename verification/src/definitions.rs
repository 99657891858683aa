//! From the text of a header to the table of its definitions.
//!
//! A header is searched with the pattern of its kind. Each match is one
//! definition: its first group is the name, its second the number. The
//! definitions are recorded in the order of the matches, so that of two
//! definitions of one name the later one counts.

use vstd::prelude::*;
use crate::error::ParseError;
use crate::interrupts::{fix_interrupt_naming, fixed_name};
use crate::header::HeaderKind;
use crate::locator::{header_path, locate_header};
use crate::number::{decode_u8, parse_u8, Radix};
use crate::pattern::{find_captures, regex_captures};
use crate::table::{distinct_names, lemma_position, lemma_record, lookup, record, SignalTable};
use crate::text::starts_with;

verus! {

/// The text of the group `index` of the match `groups`; `None` where the
/// match has no such group or the group took no part in it.
pub open spec fn group(groups: Seq<Option<Seq<char>>>, index: int) -> Option<Seq<char>> {
    if 0 <= index < groups.len() {
        groups[index]
    } else {
        None
    }
}

/// The definition that a DMA multiplexer header gives with the name `name`
/// and the number `number`: the number is `0x` and hexadecimal digits.
pub open spec fn dmamux_definition(name: Seq<char>, number: Seq<char>) -> Result<
    (Seq<char>, u8),
    ParseError,
> {
    if !"0x"@.is_prefix_of(number) {
        Err(ParseError::MalformedDefinition)
    } else {
        match decode_u8(number.skip(2), Radix::Hexadecimal) {
            Ok(value) => Ok((name, value)),
            Err(e) => Err(e),
        }
    }
}

/// The definition that an interrupt header gives with the name `name` and the
/// number `number`: the number is decimal digits, and the name is put right
/// where the header is known to differ from the name in use.
pub open spec fn interrupt_definition(name: Seq<char>, number: Seq<char>) -> Result<
    (Seq<char>, u8),
    ParseError,
> {
    match decode_u8(number, Radix::Decimal) {
        Ok(value) => Ok((fixed_name(name), value)),
        Err(e) => Err(e),
    }
}

/// The definition that the match `groups` gives in a header of kind `kind`.
pub open spec fn definition(kind: HeaderKind, groups: Seq<Option<Seq<char>>>) -> Result<
    (Seq<char>, u8),
    ParseError,
> {
    match (group(groups, 1), group(groups, 2)) {
        (Some(name), Some(number)) => match kind {
            HeaderKind::Dmamux => dmamux_definition(name, number),
            HeaderKind::Interrupts => interrupt_definition(name, number),
        },
        _ => Err(ParseError::MalformedDefinition),
    }
}

/// The entries that the matches `matches` give, recorded one after the other;
/// the error of the first match that gives no definition.
pub open spec fn definitions(kind: HeaderKind, matches: Seq<Seq<Option<Seq<char>>>>) -> Result<
    Seq<(Seq<char>, u8)>,
    ParseError,
>
    decreases matches.len(),
{
    if matches.len() == 0 {
        Ok(Seq::empty())
    } else {
        match definitions(kind, matches.drop_last()) {
            Err(e) => Err(e),
            Ok(entries) => match definition(kind, matches.last()) {
                Err(e) => Err(e),
                Ok((name, value)) => Ok(record(entries, name, value)),
            },
        }
    }
}

/// The table that a header of kind `kind` yields when the search for its
/// pattern gave `found`.
///
/// A header without a single definition yields an error, never an empty table.
pub open spec fn table_of(
    kind: HeaderKind,
    found: Option<Seq<Seq<Option<Seq<char>>>>>,
) -> Result<Seq<(Seq<char>, u8)>, ParseError> {
    match found {
        None => Err(ParseError::InvalidPattern),
        Some(matches) => if matches.len() == 0 {
            Err(ParseError::NoDefinitions)
        } else {
            definitions(kind, matches)
        },
    }
}

/// The table that the text `text` of a header of kind `kind` yields.
pub open spec fn header_table(kind: HeaderKind, text: Seq<char>) -> Result<
    Seq<(Seq<char>, u8)>,
    ParseError,
> {
    table_of(kind, regex_captures(kind.pattern(), text))
}

/// What reading the header of kind `kind` for the chip `chip_name` comes to,
/// where `header` is the text of the file found at the header's path: `None`
/// where no header is to be had, because the family of the chip is not known
/// or no file was found; otherwise the table of the header, or the error it
/// gives.
pub open spec fn loaded_table(
    kind: HeaderKind,
    chip_name: Seq<char>,
    header: Option<Seq<char>>,
) -> Option<Result<Seq<(Seq<char>, u8)>, ParseError>> {
    match (header_path(chip_name, kind), header) {
        (Some(_), Some(text)) => Some(header_table(kind, text)),
        _ => None,
    }
}

/// The view of a text that may be absent.
pub open spec fn text_view(text: Option<&str>) -> Option<Seq<char>> {
    match text {
        Some(t) => Some(t@),
        None => None,
    }
}

/// Whether the entries that `result` holds are those of `table`, or its error
/// the error `table` stands for.
pub open spec fn yields(
    result: Result<SignalTable, ParseError>,
    expected: Result<Seq<(Seq<char>, u8)>, ParseError>,
) -> bool {
    match result {
        Ok(table) => expected == Ok::<Seq<(Seq<char>, u8)>, ParseError>(table@),
        Err(e) => expected == Err::<Seq<(Seq<char>, u8)>, ParseError>(e),
    }
}

/// Reads the definition that the match `groups` gives in a header of kind
/// `kind`.
pub fn read_definition(kind: HeaderKind, groups: &Vec<Option<String>>) -> (r: Result<
    (String, u8),
    ParseError,
>)
    ensures
        match r {
            Ok((name, value)) => definition(kind, groups.deep_view()) == Ok::<
                (Seq<char>, u8),
                ParseError,
            >((name@, value)),
            Err(e) => definition(kind, groups.deep_view()) == Err::<(Seq<char>, u8), ParseError>(e),
        },
{
    if groups.len() < 3 {
        return Err(ParseError::MalformedDefinition);
    }
    assert(groups.deep_view()[1] == groups@[1].deep_view());
    assert(groups.deep_view()[2] == groups@[2].deep_view());
    match (&groups[1], &groups[2]) {
        (Some(name), Some(number)) => {
            match kind {
                HeaderKind::Dmamux => {
                    let number = number.as_str();
                    if !starts_with(number, "0x") {
                        return Err(ParseError::MalformedDefinition);
                    }
                    proof {
                        reveal_strlit("0x");
                    }
                    let digits = number.substring_char(2, number.unicode_len());
                    match parse_u8(digits, Radix::Hexadecimal) {
                        Ok(value) => Ok((name.clone(), value)),
                        Err(e) => Err(e),
                    }
                },
                HeaderKind::Interrupts => {
                    match parse_u8(number.as_str(), Radix::Decimal) {
                        Ok(value) => Ok((fix_interrupt_naming(name.as_str()), value)),
                        Err(e) => Err(e),
                    }
                },
            }
        },
        _ => Err(ParseError::MalformedDefinition),
    }
}

/// Builds the table of a header of kind `kind` from what the search for its
/// pattern gave.
pub fn table_from_captures(kind: HeaderKind, found: &Option<Vec<Vec<Option<String>>>>) -> (r:
    Result<SignalTable, ParseError>)
    ensures
        yields(r, table_of(kind, found.deep_view())),
        r matches Ok(table) ==> table@.len() > 0,
{
    proof {
        lemma_table_is_never_empty(kind, found.deep_view());
    }
    let matches = match found {
        Some(matches) => matches,
        None => {
            return Err(ParseError::InvalidPattern);
        },
    };
    let ghost all = matches.deep_view();
    assert(found.deep_view() == Some(all));
    let n = matches.len();
    if n == 0 {
        return Err(ParseError::NoDefinitions);
    }
    let mut table = SignalTable::new();
    let mut i: usize = 0;
    proof {
        assert(all.take(0) =~= Seq::<Seq<Option<Seq<char>>>>::empty());
    }
    while i < n
        invariant
            i <= n,
            0 < n == matches@.len(),
            all == matches.deep_view(),
            found.deep_view() == Some(all),
            definitions(kind, all.take(i as int)) == Ok::<Seq<(Seq<char>, u8)>, ParseError>(
                table@,
            ),
        decreases n - i,
    {
        proof {
            let longer = all.take(i + 1);
            assert(longer.drop_last() =~= all.take(i as int));
            assert(longer.last() == matches@[i as int].deep_view());
        }
        match read_definition(kind, &matches[i]) {
            Ok((name, value)) => {
                table.insert(name, value);
            },
            Err(e) => {
                proof {
                    assert(definitions(kind, all.take(i + 1)) == Err::<
                        Seq<(Seq<char>, u8)>,
                        ParseError,
                    >(e));
                    lemma_definitions_fail(kind, all, i + 1);
                }
                return Err(e);
            },
        }
        i += 1;
    }
    proof {
        assert(all.take(n as int) =~= all);
    }
    Ok(table)
}

/// Reads the table of a header of kind `kind` whose text is `text`, and whose
/// definitions match `pattern` in place of the pattern of their kind.
///
/// The first group of `pattern` is the name and the second the number, which
/// is written as the kind has it.
pub fn parse_header_with(kind: HeaderKind, pattern: &str, text: &str) -> (r: Result<
    SignalTable,
    ParseError,
>)
    ensures
        yields(r, table_of(kind, regex_captures(pattern@, text@))),
        r matches Ok(table) ==> table@.len() > 0,
{
    let found = find_captures(pattern, text);
    table_from_captures(kind, &found)
}

/// Reads the table of the header of kind `kind` whose text is `text`.
pub fn parse_header(kind: HeaderKind, text: &str) -> (r: Result<SignalTable, ParseError>)
    ensures
        yields(r, header_table(kind, text@)),
        r matches Ok(table) ==> table@.len() > 0,
{
    parse_header_with(kind, kind.pattern_text(), text)
}

/// Reads the header of kind `kind` for the chip `chip_name`, where `header`
/// is the text of the file found at the header's path, if one was found.
///
/// No header is no error: the result is then `Ok(None)`.
pub fn load_header(kind: HeaderKind, chip_name: &str, header: Option<&str>) -> (r: Result<
    Option<SignalTable>,
    ParseError,
>)
    ensures
        match r {
            Ok(None) => loaded_table(kind, chip_name@, text_view(header)) is None,
            Ok(Some(table)) => loaded_table(kind, chip_name@, text_view(header)) == Some(
                Ok::<Seq<(Seq<char>, u8)>, ParseError>(table@),
            ),
            Err(e) => loaded_table(kind, chip_name@, text_view(header)) == Some(
                Err::<Seq<(Seq<char>, u8)>, ParseError>(e),
            ),
        },
        r matches Ok(Some(table)) ==> table@.len() > 0,
{
    match (locate_header(chip_name, kind), header) {
        (Some(_), Some(text)) => {
            match parse_header(kind, text) {
                Ok(table) => Ok(Some(table)),
                Err(e) => Err(e),
            }
        },
        _ => Ok(None),
    }
}

/// Once the first `upto` matches give an error, all the matches give it.
pub proof fn lemma_definitions_fail(
    kind: HeaderKind,
    matches: Seq<Seq<Option<Seq<char>>>>,
    upto: int,
)
    requires
        0 <= upto <= matches.len(),
        definitions(kind, matches.take(upto)) is Err,
    ensures
        definitions(kind, matches) == definitions(kind, matches.take(upto)),
    decreases matches.len() - upto,
{
    if upto < matches.len() {
        let longer = matches.take(upto + 1);
        assert(longer.drop_last() =~= matches.take(upto));
        lemma_definitions_fail(kind, matches, upto + 1);
    } else {
        assert(matches.take(upto) =~= matches);
    }
}

/// A header yields a table with an entry at least, or an error: never an
/// empty table. Without a match the error says that the header holds no
/// definition.
pub proof fn lemma_table_is_never_empty(
    kind: HeaderKind,
    found: Option<Seq<Seq<Option<Seq<char>>>>>,
)
    ensures
        match table_of(kind, found) {
            Ok(entries) => entries.len() > 0 && distinct_names(entries),
            Err(_) => true,
        },
        found matches Some(matches) && matches.len() == 0 ==> table_of(kind, found) == Err::<
            Seq<(Seq<char>, u8)>,
            ParseError,
        >(ParseError::NoDefinitions),
{
    if let Some(matches) = found {
        if definitions(kind, matches) is Ok {
            lemma_definitions_are_last(kind, matches);
        }
    }
}

/// Whether the match `groups` gives a definition of `name`.
pub open spec fn defines(
    kind: HeaderKind,
    groups: Seq<Option<Seq<char>>>,
    name: Seq<char>,
) -> bool {
    match definition(kind, groups) {
        Ok((defined, _)) => defined == name,
        Err(_) => false,
    }
}

/// The number that the last definition of `name` among `matches` gives, if
/// there is a definition of `name`.
pub open spec fn last_definition(
    kind: HeaderKind,
    matches: Seq<Seq<Option<Seq<char>>>>,
    name: Seq<char>,
) -> Option<u8>
    decreases matches.len(),
{
    if matches.len() == 0 {
        None
    } else if defines(kind, matches.last(), name) {
        Some(definition(kind, matches.last()).unwrap().1)
    } else {
        last_definition(kind, matches.drop_last(), name)
    }
}

/// Whether no two of `matches` define the same name.
pub open spec fn defines_each_name_once(
    kind: HeaderKind,
    matches: Seq<Seq<Option<Seq<char>>>>,
) -> bool {
    forall|i: int, j: int, name: Seq<char>|
        0 <= i < j < matches.len() && #[trigger] defines(kind, matches[i], name)
            ==> !#[trigger] defines(kind, matches[j], name)
}

/// Where all the matches give a table, so do the first `upto` of them.
pub proof fn lemma_definitions_begin(
    kind: HeaderKind,
    matches: Seq<Seq<Option<Seq<char>>>>,
    upto: int,
)
    requires
        definitions(kind, matches) is Ok,
        0 <= upto <= matches.len(),
    ensures
        definitions(kind, matches.take(upto)) is Ok,
{
    if definitions(kind, matches.take(upto)) is Err {
        lemma_definitions_fail(kind, matches, upto);
    }
}

/// Where the matches give a table, each of them gives a definition.
pub proof fn lemma_definitions_each(
    kind: HeaderKind,
    matches: Seq<Seq<Option<Seq<char>>>>,
    i: int,
)
    requires
        definitions(kind, matches) is Ok,
        0 <= i < matches.len(),
    ensures
        definition(kind, matches[i]) is Ok,
{
    lemma_definitions_begin(kind, matches, i + 1);
    assert(matches.take(i + 1).last() == matches[i]);
}

/// A match that is the last to define its name gives the last definition of
/// that name.
pub proof fn lemma_last_definition(
    kind: HeaderKind,
    matches: Seq<Seq<Option<Seq<char>>>>,
    i: int,
    name: Seq<char>,
)
    requires
        0 <= i < matches.len(),
        defines(kind, matches[i], name),
        forall|j: int| i < j < matches.len() ==> !defines(kind, #[trigger] matches[j], name),
    ensures
        last_definition(kind, matches, name) == Some(definition(kind, matches[i]).unwrap().1),
    decreases matches.len(),
{
    if i < matches.len() - 1 {
        let head = matches.drop_last();
        assert(!defines(kind, matches[matches.len() - 1], name));
        assert(head[i] == matches[i]);
        assert forall|j: int| i < j < head.len() implies !defines(
            kind,
            #[trigger] head[j],
            name,
        ) by {
            assert(head[j] == matches[j]);
        }
        lemma_last_definition(kind, head, i, name);
    }
}

/// A name that none of the matches defines has no last definition.
pub proof fn lemma_no_definition(
    kind: HeaderKind,
    matches: Seq<Seq<Option<Seq<char>>>>,
    name: Seq<char>,
)
    requires
        forall|j: int| 0 <= j < matches.len() ==> !defines(kind, #[trigger] matches[j], name),
    ensures
        last_definition(kind, matches, name) is None,
    decreases matches.len(),
{
    if matches.len() > 0 {
        let head = matches.drop_last();
        assert(!defines(kind, matches[matches.len() - 1], name));
        assert forall|j: int| 0 <= j < head.len() implies !defines(
            kind,
            #[trigger] head[j],
            name,
        ) by {
            assert(head[j] == matches[j]);
        }
        lemma_no_definition(kind, head, name);
    }
}

/// The table that matches give is a mapping: no name occurs twice in it, and
/// it gives for each name the number of the last definition of that name, and
/// nothing for a name that is not defined. It is never larger than the number
/// of matches, and empty only where there is no match.
pub proof fn lemma_definitions_are_last(kind: HeaderKind, matches: Seq<Seq<Option<Seq<char>>>>)
    requires
        definitions(kind, matches) is Ok,
    ensures
        distinct_names(definitions(kind, matches).unwrap()),
        definitions(kind, matches).unwrap().len() <= matches.len(),
        matches.len() > 0 ==> definitions(kind, matches).unwrap().len() > 0,
        forall|name: Seq<char>| #[trigger]
            lookup(definitions(kind, matches).unwrap(), name) == last_definition(
                kind,
                matches,
                name,
            ),
    decreases matches.len(),
{
    let table = definitions(kind, matches).unwrap();
    if matches.len() == 0 {
        assert forall|name: Seq<char>| #[trigger]
            lookup(table, name) == last_definition(kind, matches, name) by {
            lemma_position(table, name);
        }
    } else {
        let head = matches.drop_last();
        let earlier = definitions(kind, head).unwrap();
        let (defined, value) = definition(kind, matches.last()).unwrap();
        lemma_definitions_are_last(kind, head);
        lemma_record(earlier, defined, value);
        lemma_position(earlier, defined);
        assert(table == record(earlier, defined, value));
        assert forall|name: Seq<char>| #[trigger]
            lookup(table, name) == last_definition(kind, matches, name) by {
            if name != defined {
                assert(lookup(table, name) == lookup(earlier, name));
            }
        }
    }
}

/// Where no two matches define the same name, the table has one entry for
/// each match.
pub proof fn lemma_one_entry_for_each_match(
    kind: HeaderKind,
    matches: Seq<Seq<Option<Seq<char>>>>,
)
    requires
        definitions(kind, matches) is Ok,
        defines_each_name_once(kind, matches),
    ensures
        definitions(kind, matches).unwrap().len() == matches.len(),
    decreases matches.len(),
{
    if matches.len() > 0 {
        let head = matches.drop_last();
        let earlier = definitions(kind, head).unwrap();
        let (defined, value) = definition(kind, matches.last()).unwrap();
        let last = matches.len() - 1;
        assert(defines(kind, matches[last], defined));
        assert forall|i: int, j: int, name: Seq<char>|
            0 <= i < j < head.len() && #[trigger] defines(
                kind,
                head[i],
                name,
            ) implies !#[trigger] defines(kind, head[j], name) by {
            assert(head[i] == matches[i]);
            assert(head[j] == matches[j]);
        }
        lemma_one_entry_for_each_match(kind, head);
        assert forall|j: int| 0 <= j < head.len() implies !defines(
            kind,
            #[trigger] head[j],
            defined,
        ) by {
            assert(head[j] == matches[j]);
            if defines(kind, matches[j], defined) {
                assert(!defines(kind, matches[last], defined));
            }
        }
        lemma_no_definition(kind, head, defined);
        lemma_definitions_are_last(kind, head);
        assert(lookup(earlier, defined) is None);
        lemma_record(earlier, defined, value);
    }
}

/// The definition that a match gives last for its name is in the table, with
/// the number that the match gives.
pub proof fn lemma_definition_is_recorded(
    kind: HeaderKind,
    matches: Seq<Seq<Option<Seq<char>>>>,
    i: int,
)
    requires
        definitions(kind, matches) is Ok,
        0 <= i < matches.len(),
        forall|j: int|
            i < j < matches.len() ==> !defines(
                kind,
                #[trigger] matches[j],
                definition(kind, matches[i]).unwrap().0,
            ),
    ensures
        definition(kind, matches[i]) is Ok,
        lookup(definitions(kind, matches).unwrap(), definition(kind, matches[i]).unwrap().0)
            == Some(definition(kind, matches[i]).unwrap().1),
{
    lemma_definitions_each(kind, matches, i);
    let name = definition(kind, matches[i]).unwrap().0;
    lemma_last_definition(kind, matches, i, name);
    lemma_definitions_are_last(kind, matches);
    assert(lookup(definitions(kind, matches).unwrap(), name) == last_definition(
        kind,
        matches,
        name,
    ));
}

} // verus!
