//! Text made of fields that a separator holds apart.
use vstd::prelude::*;
use vstd::utf8;

verus! {

/// The fields of `s`: what stands before, between and after the occurrences of
/// `sep`. There is always one more field than there are separators.
pub open spec fn split_on(s: Seq<char>, sep: char) -> Seq<Seq<char>>
    decreases s.len(),
{
    if s.len() == 0 {
        seq![Seq::<char>::empty()]
    } else {
        let before = split_on(s.drop_last(), sep);
        if s.last() == sep {
            before.push(Seq::<char>::empty())
        } else {
            before.drop_last().push(before.last().push(s.last()))
        }
    }
}

/// The fields `parts`, one after the other, with `sep` between neighbours.
pub open spec fn join_with(parts: Seq<Seq<char>>, sep: char) -> Seq<char>
    decreases parts.len(),
{
    if parts.len() == 0 {
        Seq::<char>::empty()
    } else if parts.len() == 1 {
        parts[0]
    } else {
        join_with(parts.drop_last(), sep).push(sep) + parts.last()
    }
}

/// The characters of each string of a list.
pub open spec fn texts(parts: Seq<String>) -> Seq<Seq<char>> {
    parts.map_values(|part: String| part@)
}

/// No field of `parts` holds the separator.
pub open spec fn free_of(parts: Seq<Seq<char>>, sep: char) -> bool {
    forall|i: int| #![trigger parts[i]] 0 <= i < parts.len() ==> !parts[i].contains(sep)
}

/// `parts` without the empty fields at its end.
pub open spec fn trim_empty(parts: Seq<Seq<char>>) -> Seq<Seq<char>>
    decreases parts.len(),
{
    if parts.len() == 0 || parts.last().len() > 0 {
        parts
    } else {
        trim_empty(parts.drop_last())
    }
}

/// Splits `s` at every occurrence of `sep`.
pub fn split(s: &str, sep: char) -> (parts: Vec<String>)
    ensures
        texts(parts@) == split_on(s@, sep),
        parts@.len() >= 1,
        forall|i: int| #![trigger parts@[i]] 0 <= i < parts@.len() ==> !parts@[i]@.contains(sep),
{
    let mut parts: Vec<String> = Vec::new();
    let mut field: String = String::new();
    proof {
        assert(texts(parts@).push(field@) =~= split_on(s@.take(0), sep));
    }
    for c in it: s.chars()
        invariant
            it.seq() == s@,
            texts(parts@).push(field@) == split_on(s@.take(it.index() as int), sep),
    {
        let ghost i = it.index() as int;
        let ghost before = texts(parts@);
        let ghost head = s@.take(i + 1);
        proof {
            assert(head.drop_last() =~= s@.take(i));
            assert(head.last() == c);
            assert(before.push(field@).drop_last() =~= before);
        }
        if c == sep {
            parts.push(field);
            field = String::new();
            proof {
                assert(texts(parts@) =~= split_on(s@.take(i), sep));
                assert(field@ =~= Seq::<char>::empty());
            }
        } else {
            field.push(c);
        }
    }
    parts.push(field);
    proof {
        assert(s@.take(s@.len() as int) =~= s@);
        assert(texts(parts@) =~= split_on(s@, sep));
        law_join_of_split(s@, sep);
        assert forall|i: int| #![trigger parts@[i]] 0 <= i < parts@.len() implies
            !parts@[i]@.contains(sep) by {
            assert(texts(parts@)[i] == parts@[i]@);
        }
    }
    parts
}

/// Joins `parts` with `sep` between neighbours.
pub fn join(parts: &Vec<String>, sep: char) -> (joined: String)
    ensures
        joined@ == join_with(texts(parts@), sep),
{
    let mut joined: String = String::new();
    let mut i: usize = 0;
    proof {
        assert(joined@ =~= join_with(texts(parts@).take(0), sep));
    }
    while i < parts.len()
        invariant
            i <= parts@.len(),
            joined@ == join_with(texts(parts@).take(i as int), sep),
        decreases parts@.len() - i,
    {
        let ghost head = texts(parts@).take(i + 1);
        proof {
            assert(head.drop_last() =~= texts(parts@).take(i as int));
            assert(head.last() == parts@[i as int]@);
        }
        if i > 0 {
            joined.push(sep);
        }
        joined.append(parts[i].as_str());
        proof {
            if i == 0 {
                assert(joined@ =~= head[0]);
            }
        }
        i += 1;
    }
    proof {
        assert(texts(parts@).take(i as int) =~= texts(parts@));
    }
    joined
}

/// A text has at least one field.
pub(crate) proof fn lemma_split_some(s: Seq<char>, sep: char)
    ensures
        split_on(s, sep).len() >= 1,
    decreases s.len(),
{
    if s.len() > 0 {
        lemma_split_some(s.drop_last(), sep);
    }
}

/// Writing a separator and a field free of it behind a text adds that field to
/// the fields of the text.
proof fn lemma_split_append(s: Seq<char>, field: Seq<char>, sep: char)
    requires
        !field.contains(sep),
    ensures
        split_on(s.push(sep) + field, sep) == split_on(s, sep).push(field),
    decreases field.len(),
{
    let whole = s.push(sep) + field;
    if field.len() == 0 {
        assert(whole =~= s.push(sep));
        assert(whole.drop_last() =~= s);
        assert(field =~= Seq::<char>::empty());
    } else {
        let rest = field.drop_last();
        assert forall|i: int| 0 <= i < rest.len() implies rest[i] != sep by {
            assert(rest[i] == field[i]);
        }
        lemma_split_append(s, rest, sep);
        assert(whole.drop_last() =~= s.push(sep) + rest);
        assert(whole.last() == field.last());
        assert(field.last() == field[field.len() - 1]);
        let before = split_on(s, sep).push(rest);
        assert(before.drop_last() =~= split_on(s, sep));
        assert(rest.push(field.last()) =~= field);
    }
}

/// A text free of the separator is its own only field.
proof fn lemma_split_single(s: Seq<char>, sep: char)
    requires
        !s.contains(sep),
    ensures
        split_on(s, sep) == seq![s],
    decreases s.len(),
{
    if s.len() > 0 {
        let rest = s.drop_last();
        assert forall|i: int| 0 <= i < rest.len() implies rest[i] != sep by {
            assert(rest[i] == s[i]);
        }
        lemma_split_single(rest, sep);
        assert(s.last() == s[s.len() - 1]);
        assert(rest.push(s.last()) =~= s);
        assert(split_on(s, sep) =~= seq![s]);
    } else {
        assert(s =~= Seq::<char>::empty());
    }
}

/// Splitting a text loses nothing: its fields are free of the separator, and
/// joining them again gives the text back.
pub proof fn law_join_of_split(s: Seq<char>, sep: char)
    ensures
        free_of(split_on(s, sep), sep),
        join_with(split_on(s, sep), sep) == s,
    decreases s.len(),
{
    let parts = split_on(s, sep);
    if s.len() == 0 {
        assert(parts[0] =~= s);
    } else {
        let head = s.drop_last();
        let before = split_on(head, sep);
        law_join_of_split(head, sep);
        lemma_split_some(head, sep);
        assert(head.push(s.last()) =~= s);
        if s.last() == sep {
            assert(parts.drop_last() =~= before);
            assert(join_with(parts, sep) =~= s);
        } else {
            assert forall|i: int| #![trigger parts[i]] 0 <= i < parts.len() implies !parts[i].contains(sep) by {
                if i == parts.len() - 1 {
                    assert(!before[before.len() - 1].contains(sep));
                    let grown = parts[i];
                    assert(grown == before.last().push(s.last()));
                    assert forall|j: int| 0 <= j < grown.len() implies grown[j] != sep by {
                        if j < before.last().len() {
                            assert(grown[j] == before.last()[j]);
                        }
                    }
                } else {
                    assert(parts[i] == before[i]);
                }
            }
            if before.len() > 1 {
                assert(parts.drop_last() =~= before.drop_last());
                assert(join_with(parts, sep) =~= s);
            }
        }
    }
}

/// Joining loses nothing either: where no field holds the separator and there
/// is at least one field, splitting the joined text gives the fields back.
pub proof fn law_split_of_join(parts: Seq<Seq<char>>, sep: char)
    requires
        parts.len() > 0,
        free_of(parts, sep),
    ensures
        split_on(join_with(parts, sep), sep) == parts,
    decreases parts.len(),
{
    if parts.len() == 1 {
        lemma_split_single(parts[0], sep);
        assert(seq![parts[0]] =~= parts);
    } else {
        let head = parts.drop_last();
        assert forall|i: int| #![trigger head[i]] 0 <= i < head.len() implies !head[i].contains(sep) by {
            assert(head[i] == parts[i]);
        }
        law_split_of_join(head, sep);
        assert(!parts[parts.len() - 1].contains(sep));
        lemma_split_append(join_with(head, sep), parts.last(), sep);
        assert(head.push(parts.last()) =~= parts);
    }
}

/// What trimming leaves is the front of the list, does not end in an empty
/// field, and lacks empty fields only.
pub proof fn law_trim_empty(parts: Seq<Seq<char>>)
    ensures
        trim_empty(parts).len() <= parts.len(),
        trim_empty(parts) == parts.take(trim_empty(parts).len() as int),
        trim_empty(parts).len() > 0 ==> trim_empty(parts).last().len() > 0,
        forall|i: int|
            #![trigger parts[i]]
            trim_empty(parts).len() <= i < parts.len() ==> parts[i].len() == 0,
    decreases parts.len(),
{
    if parts.len() == 0 || parts.last().len() > 0 {
        assert(parts.take(parts.len() as int) =~= parts);
    } else {
        let head = parts.drop_last();
        law_trim_empty(head);
        let m = trim_empty(head).len() as int;
        assert(parts.take(m) =~= head.take(m));
        assert forall|i: int| #![trigger parts[i]] m <= i < parts.len() implies parts[i].len() == 0 by {
            if i < head.len() {
                assert(parts[i] == head[i]);
            }
        }
    }
}

/// The front fields of a list, joined, are the front of the whole list, joined.
pub(crate) proof fn lemma_join_of_front(parts: Seq<Seq<char>>, sep: char, count: int)
    requires
        0 <= count <= parts.len(),
    ensures
        join_with(parts.take(count), sep).is_prefix_of(join_with(parts, sep)),
    decreases parts.len(),
{
    if count == parts.len() {
        assert(parts.take(count) =~= parts);
    } else {
        let head = parts.drop_last();
        lemma_join_of_front(head, sep, count);
        assert(head.take(count) =~= parts.take(count));
        if parts.len() == 1 {
            assert(parts.take(count) =~= Seq::<Seq<char>>::empty());
        } else {
            let front = join_with(parts.take(count), sep);
            let whole = join_with(parts, sep);
            assert(front =~= whole.subrange(0, front.len() as int));
        }
    }
}

/// Texts one after the other are encoded one after the other.
pub(crate) proof fn lemma_encode_concat(a: Seq<char>, b: Seq<char>)
    ensures
        utf8::encode_utf8(a + b) == utf8::encode_utf8(a) + utf8::encode_utf8(b),
    decreases a.len(),
{
    if a.len() == 0 {
        assert(a + b =~= b);
        assert(utf8::encode_utf8(a) + utf8::encode_utf8(b) =~= utf8::encode_utf8(b));
    } else {
        lemma_encode_concat(a.drop_first(), b);
        assert((a + b).drop_first() =~= a.drop_first() + b);
        assert(utf8::encode_utf8(a + b) =~= utf8::encode_utf8(a) + utf8::encode_utf8(b));
    }
}

/// No character takes more than four bytes.
pub(crate) proof fn lemma_encoded_len(s: Seq<char>)
    ensures
        utf8::encode_utf8(s).len() <= 4 * s.len(),
    decreases s.len(),
{
    if s.len() > 0 {
        lemma_encoded_len(s.drop_first());
    }
}

/// How long joined fields can be, by the length of the longest.
pub(crate) proof fn lemma_joined_len(parts: Seq<Seq<char>>, sep: char, longest: nat)
    requires
        forall|i: int| #![trigger parts[i]] 0 <= i < parts.len() ==> parts[i].len() <= longest,
    ensures
        join_with(parts, sep).len() <= parts.len() * (longest + 1),
    decreases parts.len(),
{
    if parts.len() > 0 {
        let head = parts.drop_last();
        assert forall|i: int| #![trigger head[i]] 0 <= i < head.len() implies head[i].len()
            <= longest by {
            assert(head[i] == parts[i]);
        }
        lemma_joined_len(head, sep, longest);
        assert(parts[parts.len() - 1].len() <= longest);
        assert(parts.len() * (longest + 1) == head.len() * (longest + 1) + (longest + 1))
            by (nonlinear_arith)
            requires
                parts.len() == head.len() + 1,
        ;
        assert(head.len() * (longest + 1) >= 0) by (nonlinear_arith);
    }
}

/// A text without separators is one field. Putting a separator behind a text,
/// and behind that a text without separators, adds exactly the latter to the
/// fields.
pub proof fn law_fields_of_text(s: Seq<char>, field: Seq<char>, sep: char)
    requires
        !field.contains(sep),
    ensures
        split_on(field, sep) == seq![field],
        split_on(s + seq![sep] + field, sep) == split_on(s, sep) + seq![field],
{
    lemma_split_single(field, sep);
    lemma_split_append(s, field, sep);
    assert(s + seq![sep] + field =~= s.push(sep) + field);
    assert(split_on(s, sep).push(field) =~= split_on(s, sep) + seq![field]);
}

/// There is one more field than there are separators.
pub proof fn law_count_of_fields(s: Seq<char>, sep: char)
    ensures
        split_on(s, sep).len() == s.filter(|c: char| c == sep).len() + 1,
    decreases s.len(),
{
    reveal(Seq::filter);
    if s.len() > 0 {
        lemma_split_some(s.drop_last(), sep);
        law_count_of_fields(s.drop_last(), sep);
    }
}

/// Nothing joined is nothing, one field joined is itself, and one more field
/// comes behind a separator.
pub proof fn law_text_of_fields(parts: Seq<Seq<char>>, field: Seq<char>, sep: char)
    ensures
        join_with(Seq::<Seq<char>>::empty(), sep) == Seq::<char>::empty(),
        join_with(seq![field], sep) == field,
        parts.len() > 0 ==> join_with(parts + seq![field], sep) == join_with(parts, sep) + seq![sep]
            + field,
{
    let more = parts + seq![field];
    assert(more.drop_last() =~= parts);
    assert(more.last() == field);
    if parts.len() > 0 {
        assert(join_with(parts, sep).push(sep) + field =~= join_with(parts, sep) + seq![sep]
            + field);
    }
}

/// The characters of a list of strings are those of its strings, in their order.
pub proof fn law_texts_in_order(parts: Seq<String>)
    ensures
        texts(parts).len() == parts.len(),
        forall|i: int| 0 <= i < parts.len() ==> #[trigger] texts(parts)[i] == parts[i]@,
{
}

/// What trimming leaves is known by its end: it is the front that does not end in
/// an empty field and behind which all fields are empty.
pub proof fn law_trimmed_front(parts: Seq<Seq<char>>, count: int)
    requires
        0 <= count <= parts.len(),
        count > 0 ==> parts[count - 1].len() > 0,
        forall|i: int| #![trigger parts[i]] count <= i < parts.len() ==> parts[i].len() == 0,
    ensures
        trim_empty(parts) == parts.take(count),
{
    law_trim_empty(parts);
    let m = trim_empty(parts).len() as int;
    if m < count {
        assert(parts[count - 1].len() == 0);
    } else if m > count {
        assert(trim_empty(parts).last() == parts[m - 1]);
    }
}

/// The fields of two texts with a separator between them are those of the one,
/// then those of the other.
pub proof fn law_fields_of_two_texts(a: Seq<char>, b: Seq<char>, sep: char)
    ensures
        split_on(a + seq![sep] + b, sep) == split_on(a, sep) + split_on(b, sep),
    decreases b.len(),
{
    let whole = a + seq![sep] + b;
    lemma_split_some(a, sep);
    if b.len() == 0 {
        assert(whole.drop_last() =~= a);
        assert(split_on(a, sep).push(Seq::<char>::empty()) =~= split_on(a, sep) + split_on(b, sep));
    } else {
        let rest = b.drop_last();
        law_fields_of_two_texts(a, rest, sep);
        lemma_split_some(rest, sep);
        assert(whole.drop_last() =~= a + seq![sep] + rest);
        assert(whole.last() == b.last());
        assert(split_on(whole, sep) =~= split_on(a, sep) + split_on(b, sep));
    }
}

/// Joined fields with a separator behind them are the fields in their order, each
/// with a separator behind it.
pub(crate) proof fn lemma_joined_is_flat(parts: Seq<Seq<char>>, sep: char)
    requires
        parts.len() > 0,
    ensures
        join_with(parts, sep).push(sep) == parts.map_values(
            |part: Seq<char>| part.push(sep),
        ).flatten(),
    decreases parts.len(),
{
    let close = |part: Seq<char>| part.push(sep);
    let head = parts.drop_last();
    let ended = parts.map_values(close);
    assert(ended =~= head.map_values(close).push(parts.last().push(sep)));
    head.map_values(close).lemma_flatten_push(parts.last().push(sep));
    if parts.len() == 1 {
        assert(head.map_values(close) =~= Seq::<Seq<char>>::empty());
        assert(ended.flatten() =~= join_with(parts, sep).push(sep));
    } else {
        lemma_joined_is_flat(head, sep);
        assert(ended.flatten() =~= join_with(parts, sep).push(sep));
    }
}

} // verus!
