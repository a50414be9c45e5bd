//! The text of SQL statements: quoting, lists and positional placeholders.

use vstd::prelude::*;
use vstd::string::{StrSliceExecFns, StringExecFns};

use crate::field_type::TableSchemaFieldType;

verus! {

/// The characters of an identifier as they stand between double quotes:
/// each double quote twice, every other character as it is.
pub open spec fn escaped(name: Seq<char>) -> Seq<char>
    decreases name.len(),
{
    if name.len() == 0 {
        Seq::empty()
    } else if name.last() == '"' {
        escaped(name.drop_last()) + "\"\""@
    } else {
        escaped(name.drop_last()).push(name.last())
    }
}

/// An identifier between double quotes, so that any name can stand for a
/// table or a column: a keyword, a name with spaces, a name that holds
/// double quotes itself.
pub open spec fn quoted(name: Seq<char>) -> Seq<char> {
    "\""@ + escaped(name) + "\""@
}

/// The parts of a list, with `", "` between each two.
pub open spec fn comma_list(parts: Seq<Seq<char>>) -> Seq<char>
    decreases parts.len(),
{
    if parts.len() == 0 {
        Seq::empty()
    } else if parts.len() == 1 {
        parts[0]
    } else {
        comma_list(parts.drop_last()) + ", "@ + parts.last()
    }
}

/// The decimal digit for `d`, which is below ten.
pub open spec fn digit(d: nat) -> char {
    if d == 0 {
        '0'
    } else if d == 1 {
        '1'
    } else if d == 2 {
        '2'
    } else if d == 3 {
        '3'
    } else if d == 4 {
        '4'
    } else if d == 5 {
        '5'
    } else if d == 6 {
        '6'
    } else if d == 7 {
        '7'
    } else if d == 8 {
        '8'
    } else {
        '9'
    }
}

/// A number in decimal digits, without sign and without leading zeros.
pub open spec fn decimal(n: nat) -> Seq<char>
    decreases n,
{
    if n < 10 {
        seq![digit(n)]
    } else {
        decimal(n / 10).push(digit(n % 10))
    }
}

/// The placeholder of the parameter at position `index`, counted from zero:
/// a question mark and the position counted from one.
pub open spec fn placeholder(index: nat) -> Seq<char> {
    "?"@ + decimal(index + 1)
}

/// One column of a table definition: the quoted name, a space, and the
/// keyword of the column's type.
pub open spec fn column_definition(name: Seq<char>, field_type: TableSchemaFieldType) -> Seq<
    char,
> {
    quoted(name) + " "@ + field_type.sql_keyword()
}

/// The column definitions of a table, in the order of its columns.
pub open spec fn column_definitions(columns: Seq<(Seq<char>, TableSchemaFieldType)>) -> Seq<
    Seq<char>,
> {
    Seq::new(columns.len(), |i: int| column_definition(columns[i].0, columns[i].1))
}

/// The statement that creates the table `table` with the given columns.
pub open spec fn create_table_text(
    table: Seq<char>,
    columns: Seq<(Seq<char>, TableSchemaFieldType)>,
) -> Seq<char> {
    "CREATE TABLE "@ + quoted(table) + " ("@ + comma_list(column_definitions(columns)) + ")"@
}

/// The quoted names of a list of columns.
pub open spec fn quoted_names(names: Seq<Seq<char>>) -> Seq<Seq<char>> {
    Seq::new(names.len(), |i: int| quoted(names[i]))
}

/// The placeholders of `count` parameters: `?1`, `?2`, and so on.
pub open spec fn placeholders(count: nat) -> Seq<Seq<char>> {
    Seq::new(count, |i: int| placeholder(i as nat))
}

/// The statement that inserts one row into the table `table`, with one
/// placeholder for each of the named columns, in their order.
pub open spec fn insert_text(table: Seq<char>, names: Seq<Seq<char>>) -> Seq<char> {
    "INSERT INTO "@ + quoted(table) + " ("@ + comma_list(quoted_names(names)) + ") VALUES ("@
        + comma_list(placeholders(names.len())) + ");"@
}

/// What stands before part `at` of a list: the separator, but nothing
/// before the first part.
pub open spec fn separator_before(at: int) -> Seq<char> {
    if at > 0 {
        ", "@
    } else {
        Seq::empty()
    }
}

/// A list grows part by part: the list of the first `at + 1` parts is the
/// list of the first `at` parts, the separator unless `at` is zero, and
/// part `at`.
pub proof fn lemma_comma_list_grows(parts: Seq<Seq<char>>, at: int)
    requires
        0 <= at < parts.len(),
    ensures
        comma_list(parts.take(at + 1)) == comma_list(parts.take(at)) + separator_before(at)
            + parts[at],
{
    assert(parts.take(at + 1).drop_last() =~= parts.take(at));
    if at == 0 {
        assert(comma_list(parts.take(at)) + separator_before(at) + parts[at] =~= parts[at]);
    }
}

/// Appends what stands before part `at` of a list.
pub fn push_separator(out: &mut String, at: usize)
    ensures
        final(out)@ == old(out)@ + separator_before(at as int),
{
    if at > 0 {
        out.append(", ");
    }
    assert(out@ =~= old(out)@ + separator_before(at as int));
}

/// Appends an identifier between double quotes, with each double quote of
/// its own written twice.
pub fn push_quoted(out: &mut String, name: &str)
    ensures
        final(out)@ == old(out)@ + quoted(name@),
{
    out.append("\"");
    let ghost head = out@;
    let length = name.unicode_len();
    let mut i: usize = 0;
    while i < length
        invariant
            i <= length,
            length == name@.len(),
            out@ == head + escaped(name@.take(i as int)),
        decreases length - i,
    {
        let ghost so_far = out@;
        let c = name.get_char(i);
        proof {
            assert(name@.take(i + 1).drop_last() =~= name@.take(i as int));
            assert(name@.take(i + 1).last() == c);
        }
        if c == '"' {
            out.append("\"\"");
            assert(out@ =~= head + escaped(name@.take(i + 1)));
        } else {
            out.append(name.substring_char(i, i + 1));
            assert(name@.subrange(i as int, i + 1) =~= seq![c]);
            assert(out@ =~= head + escaped(name@.take(i + 1)));
        }
        i += 1;
    }
    out.append("\"");
    assert(name@.take(i as int) =~= name@);
    assert(out@ =~= old(out)@ + quoted(name@));
}

/// The one-character string of a decimal digit.
fn digit_str(d: usize) -> (s: &'static str)
    requires
        d < 10,
    ensures
        s@ == seq![digit(d as nat)],
{
    proof {
        reveal_strlit("0");
        reveal_strlit("1");
        reveal_strlit("2");
        reveal_strlit("3");
        reveal_strlit("4");
        reveal_strlit("5");
        reveal_strlit("6");
        reveal_strlit("7");
        reveal_strlit("8");
        reveal_strlit("9");
    }
    let s = if d == 0 {
        "0"
    } else if d == 1 {
        "1"
    } else if d == 2 {
        "2"
    } else if d == 3 {
        "3"
    } else if d == 4 {
        "4"
    } else if d == 5 {
        "5"
    } else if d == 6 {
        "6"
    } else if d == 7 {
        "7"
    } else if d == 8 {
        "8"
    } else {
        "9"
    };
    assert(s@ =~= seq![digit(d as nat)]);
    s
}

/// Appends a number in decimal digits.
pub fn push_decimal(out: &mut String, n: usize)
    ensures
        final(out)@ == old(out)@ + decimal(n as nat),
    decreases n,
{
    if n >= 10 {
        push_decimal(out, n / 10);
    }
    out.append(digit_str(n % 10));
    assert(out@ =~= old(out)@ + decimal(n as nat));
}

} // verus!
