//! Where the headers of a chip lie in the SDK.
//!
//! The family of a chip is told by the beginning of its name. Each family has
//! a directory below the root of the SDK, and in it one header of each kind.

use vstd::prelude::*;
use crate::header::HeaderKind;
use crate::text::{pairs_view, starts_with};

verus! {

/// The families, each with the beginning of its chips' names and its
/// directory. The order matters: `HPM5301` stands before `HPM53`, which
/// begins it.
pub open spec fn families() -> Seq<(Seq<char>, Seq<char>)> {
    seq![
        ("HPM5301"@, "soc/HPM5300/HPM5301"@),
        ("HPM53"@, "soc/HPM5300/HPM5361"@),
        ("HPM5E"@, "soc/HPM5E00/HPM5E31"@),
        ("HPM62"@, "soc/HPM6200/HPM6280"@),
        ("HPM63"@, "soc/HPM6300/HPM6360"@),
        ("HPM67"@, "soc/HPM6700/HPM6750"@),
        ("HPM64"@, "soc/HPM6700/HPM6750"@),
        ("HPM68"@, "soc/HPM6800/HPM6880"@),
        ("HPM6E"@, "soc/HPM6E00/HPM6E80"@),
        ("HPM6P"@, "soc/HPM6P00/HPM6P81"@),
    ]
}

/// The index of the first entry of `table` whose prefix begins `name`.
pub open spec fn first_match(table: Seq<(Seq<char>, Seq<char>)>, name: Seq<char>) -> Option<int>
    decreases table.len(),
{
    if table.len() == 0 {
        None
    } else if table[0].0.is_prefix_of(name) {
        Some(0)
    } else {
        match first_match(table.drop_first(), name) {
            Some(i) => Some(i + 1),
            None => None,
        }
    }
}

/// The directory of the family of the chip `chip_name`, if the family is known.
pub open spec fn family_dir(chip_name: Seq<char>) -> Option<Seq<char>> {
    match first_match(families(), chip_name) {
        Some(i) => Some(families()[i].1),
        None => None,
    }
}

/// The path, below the root of the SDK, of the header of kind `kind` for the
/// chip `chip_name`; `None` where the family is not known.
pub open spec fn header_path(chip_name: Seq<char>, kind: HeaderKind) -> Option<Seq<char>> {
    match family_dir(chip_name) {
        Some(dir) => Some(dir + "/"@ + kind.file_name()),
        None => None,
    }
}

/// The first match is the one entry that begins the name while none before it
/// does; there is none exactly where no entry begins the name.
pub proof fn lemma_first_match(table: Seq<(Seq<char>, Seq<char>)>, name: Seq<char>)
    ensures
        match first_match(table, name) {
            Some(i) => {
                &&& 0 <= i < table.len()
                &&& table[i].0.is_prefix_of(name)
                &&& forall|j: int| 0 <= j < i ==> !(#[trigger] table[j]).0.is_prefix_of(name)
            },
            None => forall|j: int|
                0 <= j < table.len() ==> !(#[trigger] table[j]).0.is_prefix_of(name),
        },
    decreases table.len(),
{
    if table.len() > 0 && !table[0].0.is_prefix_of(name) {
        let rest = table.drop_first();
        lemma_first_match(rest, name);
        match first_match(rest, name) {
            Some(i) => {
                assert(rest[i] == table[i + 1]);
                assert forall|j: int| 0 <= j < i + 1 implies !(#[trigger] table[j]).0.is_prefix_of(
                    name,
                ) by {
                    if j > 0 {
                        assert(rest[j - 1] == table[j]);
                    }
                }
            },
            None => {
                assert forall|j: int| 0 <= j < table.len() implies !(
                #[trigger] table[j]).0.is_prefix_of(name) by {
                    if j > 0 {
                        assert(rest[j - 1] == table[j]);
                    }
                }
            },
        }
    }
}

/// A chip whose name begins with `HPM5301` is of that family, though `HPM53`
/// begins its name too.
pub proof fn lemma_longer_prefix_comes_first(chip_name: Seq<char>)
    requires
        "HPM5301"@.is_prefix_of(chip_name),
    ensures
        "HPM53"@.is_prefix_of(chip_name),
        family_dir(chip_name) == Some("soc/HPM5300/HPM5301"@),
{
    reveal_strlit("HPM5301");
    reveal_strlit("HPM53");
    assert("HPM53"@ =~= chip_name.subrange(0, 5)) by {
        assert("HPM5301"@ =~= chip_name.subrange(0, 7));
        assert forall|i: int| 0 <= i < 5 implies "HPM53"@[i] == chip_name.subrange(0, 5)[i] by {
            assert("HPM5301"@[i] == chip_name.subrange(0, 7)[i]);
        }
    }
}

/// The families as a table to search.
fn family_table() -> (table: Vec<(&'static str, &'static str)>)
    ensures
        pairs_view(table@) == families(),
{
    let table = vec![
        ("HPM5301", "soc/HPM5300/HPM5301"),
        ("HPM53", "soc/HPM5300/HPM5361"),
        ("HPM5E", "soc/HPM5E00/HPM5E31"),
        ("HPM62", "soc/HPM6200/HPM6280"),
        ("HPM63", "soc/HPM6300/HPM6360"),
        ("HPM67", "soc/HPM6700/HPM6750"),
        ("HPM64", "soc/HPM6700/HPM6750"),
        ("HPM68", "soc/HPM6800/HPM6880"),
        ("HPM6E", "soc/HPM6E00/HPM6E80"),
        ("HPM6P", "soc/HPM6P00/HPM6P81"),
    ];
    assert(pairs_view(table@) =~= families());
    table
}

/// Finds the path, below the root of the SDK, of the header of kind `kind`
/// for the chip `chip_name`.
///
/// Whether a file lies there is for the caller to find out.
pub fn locate_header(chip_name: &str, kind: HeaderKind) -> (path: Option<String>)
    ensures
        match path {
            Some(p) => header_path(chip_name@, kind) == Some(p@),
            None => header_path(chip_name@, kind) is None,
        },
{
    let table = family_table();
    let file = kind.file_name_text();
    let n = table.len();
    let mut i: usize = 0;
    proof {
        lemma_first_match(families(), chip_name@);
    }
    while i < n
        invariant
            i <= n,
            n == table@.len(),
            pairs_view(table@) == families(),
            file@ == kind.file_name(),
            forall|j: int| 0 <= j < i ==> !(#[trigger] families()[j]).0.is_prefix_of(chip_name@),
        decreases n - i,
    {
        let (prefix, dir) = table[i];
        assert(families()[i as int] == (prefix@, dir@)) by {
            assert(pairs_view(table@)[i as int] == (table@[i as int].0@, table@[i as int].1@));
        }
        if starts_with(chip_name, prefix) {
            proof {
                lemma_first_match(families(), chip_name@);
                assert(first_match(families(), chip_name@) == Some(i as int));
            }
            let path = String::from_str(dir).concat("/").concat(file);
            assert(family_dir(chip_name@) == Some(dir@));
            return Some(path);
        }
        i += 1;
    }
    None
}

/// The path, below the root of the SDK, of the DMA multiplexer header for the
/// chip `chip_name`.
pub fn get_dmamux_header_path(chip_name: &str) -> (path: Option<String>)
    ensures
        match path {
            Some(p) => header_path(chip_name@, HeaderKind::Dmamux) == Some(p@),
            None => header_path(chip_name@, HeaderKind::Dmamux) is None,
        },
{
    locate_header(chip_name, HeaderKind::Dmamux)
}

/// The path, below the root of the SDK, of the interrupt header for the chip
/// `chip_name`.
pub fn get_interrupts_header_path(chip_name: &str) -> (path: Option<String>)
    ensures
        match path {
            Some(p) => header_path(chip_name@, HeaderKind::Interrupts) == Some(p@),
            None => header_path(chip_name@, HeaderKind::Interrupts) is None,
        },
{
    locate_header(chip_name, HeaderKind::Interrupts)
}

} // verus!
