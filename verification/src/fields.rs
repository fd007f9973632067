//! Cutting a line into its fields at a separator character.

use vstd::prelude::*;

verus! {

/// The fields of `line`: the stretches of characters between occurrences of
/// `sep`. A line without a separator is one field, the empty line included.
pub open spec fn split_spec(line: Seq<char>, sep: char) -> Seq<Seq<char>>
    decreases line.len(),
{
    if line.len() == 0 {
        seq![Seq::<char>::empty()]
    } else {
        let before = split_spec(line.drop_last(), sep);
        if line.last() == sep {
            before.push(Seq::<char>::empty())
        } else {
            before.drop_last().push(before.last().push(line.last()))
        }
    }
}

/// The line that `fields` make when `sep` is put between neighbours.
pub open spec fn join_spec(fields: Seq<Seq<char>>, sep: char) -> Seq<char>
    decreases fields.len(),
{
    if fields.len() == 0 {
        Seq::empty()
    } else if fields.len() == 1 {
        fields[0]
    } else {
        join_spec(fields.drop_last(), sep).push(sep) + fields.last()
    }
}

/// Whether no field holds the separator.
pub open spec fn free_of(fields: Seq<Seq<char>>, sep: char) -> bool {
    forall|f: int, i: int|
        0 <= f < fields.len() && 0 <= i < fields[f].len() ==> #[trigger] fields[f][i] != sep
}

/// A line has at least one field, no field holds the separator, and the
/// fields joined by the separator are the line again.
pub proof fn lemma_split_then_join(line: Seq<char>, sep: char)
    ensures
        split_spec(line, sep).len() >= 1,
        free_of(split_spec(line, sep), sep),
        join_spec(split_spec(line, sep), sep) == line,
    decreases line.len(),
{
    if line.len() == 0 {
        assert(join_spec(split_spec(line, sep), sep) =~= line);
    } else {
        let before = split_spec(line.drop_last(), sep);
        let fields = split_spec(line, sep);
        lemma_split_then_join(line.drop_last(), sep);
        if line.last() == sep {
            assert(fields.drop_last() =~= before);
            assert(join_spec(fields, sep) =~= line);
        } else {
            lemma_join_grows(before, sep, line.last());
            assert(join_spec(fields, sep) =~= line);
        }
    }
}

/// A character added to the last field is added to the joined line.
pub proof fn lemma_join_grows(fields: Seq<Seq<char>>, sep: char, c: char)
    requires
        fields.len() >= 1,
    ensures
        join_spec(fields.drop_last().push(fields.last().push(c)), sep) == join_spec(
            fields,
            sep,
        ).push(c),
{
    let grown = fields.drop_last().push(fields.last().push(c));
    if fields.len() == 1 {
        assert(grown[0] =~= fields[0].push(c));
    } else {
        assert(grown.drop_last() =~= fields.drop_last());
        assert(join_spec(grown, sep) =~= join_spec(fields, sep).push(c));
    }
}

/// Fields that hold no separator are found again when the line they make
/// is split: no other cut of the line has this property.
pub proof fn lemma_join_then_split(fields: Seq<Seq<char>>, sep: char)
    requires
        fields.len() >= 1,
        free_of(fields, sep),
    ensures
        split_spec(join_spec(fields, sep), sep) == fields,
    decreases fields.len(), fields.last().len(),
{
    let line = join_spec(fields, sep);
    let last = fields.last();
    if last.len() > 0 {
        let shorter = fields.drop_last().push(last.drop_last());
        assert(last.drop_last().push(last.last()) =~= last);
        assert(shorter.drop_last().push(shorter.last().push(last.last())) =~= fields);
        lemma_join_grows(shorter, sep, last.last());
        assert(free_of(shorter, sep)) by {
            assert forall|f: int, i: int|
                0 <= f < shorter.len() && 0 <= i < shorter[f].len() implies #[trigger] shorter[f][i]
                != sep by {
                assert(shorter[f][i] == fields[f][i]);
            }
        }
        lemma_join_then_split(shorter, sep);
        assert(line.drop_last() =~= join_spec(shorter, sep));
        assert(last[last.len() - 1] != sep);
    } else if fields.len() == 1 {
        assert(last =~= Seq::<char>::empty());
        assert(fields =~= seq![Seq::<char>::empty()]);
    } else {
        let fewer = fields.drop_last();
        assert(free_of(fewer, sep)) by {
            assert forall|f: int, i: int|
                0 <= f < fewer.len() && 0 <= i < fewer[f].len() implies #[trigger] fewer[f][i]
                != sep by {
                assert(fewer[f][i] == fields[f][i]);
            }
        }
        lemma_join_then_split(fewer, sep);
        assert(line =~= join_spec(fewer, sep).push(sep));
        assert(line.drop_last() =~= join_spec(fewer, sep));
        assert(last =~= Seq::<char>::empty());
        assert(fewer.push(Seq::<char>::empty()) =~= fields);
    }
}

/// The character sequences that a sequence of strings stands for.
pub open spec fn texts(strings: Seq<String>) -> Seq<Seq<char>> {
    strings.map_values(|s: String| s@)
}

/// Splits `line` at every `sep`, keeping empty fields.
pub fn split_fields(line: &str, sep: char) -> (fields: Vec<String>)
    ensures
        texts(fields@) == split_spec(line@, sep),
{
    let n: usize = line.unicode_len();
    let mut fields: Vec<String> = Vec::new();
    let mut start: usize = 0;
    let mut i: usize = 0;
    proof {
        assert(line@.take(0) =~= Seq::<char>::empty());
        assert(texts(fields@).push(line@.subrange(0, 0)) =~= seq![Seq::<char>::empty()]);
    }
    for c in it: line.chars()
        invariant
            n == line@.len(),
            it.seq() == line@,
            i == it.index(),
            start <= i <= n,
            texts(fields@).push(line@.subrange(start as int, i as int)) == split_spec(
                line@.take(i as int),
                sep,
            ),
    {
        let ghost before = texts(fields@).push(line@.subrange(start as int, i as int));
        proof {
            assert(line@.take(i + 1).drop_last() =~= line@.take(i as int));
            assert(line@.take(i + 1).last() == c);
        }
        if c == sep {
            fields.push(line.substring_char(start, i).to_owned());
            start = i + 1;
            proof {
                assert(texts(fields@) =~= before);
                assert(line@.subrange(start as int, i + 1) =~= Seq::<char>::empty());
            }
        } else {
            proof {
                assert(before.drop_last() =~= texts(fields@));
                assert(line@.subrange(start as int, i + 1) =~= before.last().push(c));
            }
        }
        i = i + 1;
    }
    let ghost before = texts(fields@);
    fields.push(line.substring_char(start, n).to_owned());
    proof {
        assert(line@.take(n as int) =~= line@);
        assert(texts(fields@) =~= before.push(line@.subrange(start as int, n as int)));
    }
    fields
}

} // verus!
