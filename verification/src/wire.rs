//! The shape of a protocol line: fields set apart by a separator.

use vstd::prelude::*;
use vstd::string::StrSliceExecFns;
use vstd::string::StringExecFns;

use crate::decimal::{decimal, lemma_decimal_is_digits, push_decimal};

verus! {

/// The character that separates the fields of a line.
pub open spec fn separator() -> char {
    '|'
}

/// Whether the text `s` is free of separators.
pub open spec fn plain(s: Seq<char>) -> bool {
    forall|i: int| 0 <= i < s.len() ==> #[trigger] s[i] != separator()
}

/// Whether each of `fields` is free of separators.
pub open spec fn all_plain(fields: Seq<Seq<char>>) -> bool {
    forall|i: int| 0 <= i < fields.len() ==> plain(#[trigger] fields[i])
}

/// The fields of the text `s`: the stretches between its separators, in
/// order. A text with n separators has n + 1 fields, some of which may be
/// empty.
pub open spec fn split(s: Seq<char>) -> Seq<Seq<char>>
    decreases s.len(),
{
    if s.len() == 0 {
        seq![Seq::empty()]
    } else {
        let fields = split(s.drop_last());
        if s.last() == separator() {
            fields.push(Seq::empty())
        } else {
            fields.update(fields.len() - 1, fields.last().push(s.last()))
        }
    }
}

/// The text that holds `fields` in order, with one separator between each
/// two neighbours.
pub open spec fn join(fields: Seq<Seq<char>>) -> Seq<char>
    decreases fields.len(),
{
    if fields.len() == 0 {
        Seq::empty()
    } else if fields.len() == 1 {
        fields[0]
    } else {
        join(fields.drop_last()) + seq![separator()] + fields.last()
    }
}

/// Every text has at least one field.
pub proof fn lemma_split_len(s: Seq<char>)
    ensures
        split(s).len() >= 1,
    decreases s.len(),
{
    if s.len() > 0 {
        lemma_split_len(s.drop_last());
    }
}

/// No field of a text holds a separator.
pub proof fn lemma_split_fields_plain(s: Seq<char>)
    ensures
        all_plain(split(s)),
    decreases s.len(),
{
    if s.len() > 0 {
        lemma_split_len(s.drop_last());
        lemma_split_fields_plain(s.drop_last());
    }
}

/// Joining the fields of a text gives the text back.
pub proof fn lemma_join_split(s: Seq<char>)
    ensures
        join(split(s)) == s,
    decreases s.len(),
{
    if s.len() > 0 {
        let rest = s.drop_last();
        let fields = split(rest);
        lemma_join_split(rest);
        if s.last() == separator() {
            lemma_join_push(fields, Seq::empty());
        } else {
            lemma_join_grow(fields, s.last());
        }
    }
}

/// One more field adds a separator and the field to the joined text.
pub proof fn lemma_join_push(fields: Seq<Seq<char>>, field: Seq<char>)
    requires
        fields.len() > 0,
    ensures
        join(fields.push(field)) == join(fields) + seq![separator()] + field,
{
    assert(fields.push(field).drop_last() =~= fields);
}

/// One more character at the end of the last field is one more character at
/// the end of the joined text.
pub proof fn lemma_join_grow(fields: Seq<Seq<char>>, c: char)
    requires
        fields.len() > 0,
    ensures
        join(fields.update(fields.len() - 1, fields.last().push(c))) == join(fields).push(c),
{
    let grown = fields.update(fields.len() - 1, fields.last().push(c));
    if fields.len() > 1 {
        assert(grown.drop_last() =~= fields.drop_last());
    }
}

/// A text without separators is its own single field.
pub proof fn lemma_split_plain(s: Seq<char>)
    requires
        plain(s),
    ensures
        split(s) == seq![s],
    decreases s.len(),
{
    if s.len() == 0 {
        assert(s =~= Seq::<char>::empty());
    } else {
        lemma_split_plain(s.drop_last());
        assert(s.drop_last().push(s.last()) =~= s);
    }
}

/// The fields of two texts joined by a separator are the fields of the first
/// followed by the fields of the second.
pub proof fn lemma_split_concat(a: Seq<char>, b: Seq<char>)
    ensures
        split(a + seq![separator()] + b) == split(a) + split(b),
    decreases b.len(),
{
    let whole = a + seq![separator()] + b;
    if b.len() == 0 {
        assert(whole.drop_last() =~= a);
    } else {
        let shorter = a + seq![separator()] + b.drop_last();
        assert(whole.drop_last() =~= shorter);
        lemma_split_concat(a, b.drop_last());
        lemma_split_len(b.drop_last());
    }
}

/// Fields that hold no separator are read back from their joined text.
pub proof fn lemma_split_join(fields: Seq<Seq<char>>)
    requires
        fields.len() > 0,
        all_plain(fields),
    ensures
        split(join(fields)) == fields,
    decreases fields.len(),
{
    if fields.len() == 1 {
        lemma_split_plain(fields[0]);
    } else {
        let front = fields.drop_last();
        lemma_split_join(front);
        lemma_split_concat(join(front), fields.last());
        lemma_split_plain(fields.last());
    }
}

/// The notation of a number holds no separator.
pub proof fn lemma_decimal_plain(n: nat)
    ensures
        plain(decimal(n)),
{
    lemma_decimal_is_digits(n);
}

/// The texts of `fields` as sequences of characters.
pub open spec fn field_texts(fields: Seq<&str>) -> Seq<Seq<char>> {
    fields.map_values(|f: &str| f@)
}

/// Cuts `s` into its fields.
pub fn split_fields<'a>(s: &'a str) -> (fields: Vec<&'a str>)
    ensures
        field_texts(fields@) == split(s@),
{
    let mut fields: Vec<&'a str> = Vec::new();
    let len = s.unicode_len();
    let mut start: usize = 0;
    let mut pos: usize = 0;
    proof {
        assert(s@.subrange(0, 0) =~= Seq::<char>::empty());
    }
    for c in it: s.chars()
        invariant
            it.seq() == s@,
            len == s@.len(),
            pos == it.index(),
            start <= pos,
            pos <= s@.len(),
            field_texts(fields@).push(s@.subrange(start as int, pos as int)) == split(
                s@.take(pos as int),
            ),
    {
        proof {
            assert(s@.take(pos + 1).drop_last() =~= s@.take(pos as int));
        }
        if c == '|' {
            fields.push(s.substring_char(start, pos));
            proof {
                assert(s@.subrange(pos + 1, pos + 1) =~= Seq::<char>::empty());
            }
            start = pos + 1;
        } else {
            proof {
                assert(s@.subrange(start as int, pos + 1) =~= s@.subrange(
                    start as int,
                    pos as int,
                ).push(c));
            }
        }
        pos = pos + 1;
    }
    fields.push(s.substring_char(start, pos));
    proof {
        assert(s@.take(pos as int) =~= s@);
    }
    fields
}

/// A line under construction, field by field.
pub(crate) struct Line {
    text: String,
    fields: Ghost<Seq<Seq<char>>>,
}

impl Line {
    /// The fields that the line holds so far.
    pub closed spec fn fields(&self) -> Seq<Seq<char>> {
        self.fields@
    }

    /// Whether the text under construction is that of the fields.
    pub closed spec fn wf(&self) -> bool {
        self.fields@.len() > 0 && self.text@ == join(self.fields@)
    }

    /// Starts a line with its first field.
    pub fn start(first: &str) -> (line: Line)
        ensures
            line.wf(),
            line.fields() == seq![first@],
    {
        let ghost fields = seq![first@];
        Line { text: String::from_str(first), fields: Ghost(fields) }
    }

    /// Adds the field `text`.
    pub fn text(&mut self, text: &str)
        requires
            old(self).wf(),
        ensures
            final(self).wf(),
            final(self).fields() == old(self).fields().push(text@),
    {
        proof {
            reveal_strlit("|");
            lemma_join_push(self.fields@, text@);
        }
        self.text.append("|");
        self.text.append(text);
        let ghost fields = self.fields@.push(text@);
        self.fields = Ghost(fields);
        assert(self.text@ =~= join(old(self).fields@) + seq![separator()] + text@);
    }

    /// Adds the decimal notation of `n` as a field.
    pub fn number(&mut self, n: u32)
        requires
            old(self).wf(),
        ensures
            final(self).wf(),
            final(self).fields() == old(self).fields().push(decimal(n as nat)),
    {
        proof {
            reveal_strlit("|");
            lemma_join_push(self.fields@, decimal(n as nat));
        }
        self.text.append("|");
        push_decimal(&mut self.text, n);
        let ghost fields = self.fields@.push(decimal(n as nat));
        self.fields = Ghost(fields);
        assert(self.text@ =~= join(old(self).fields@) + seq![separator()] + decimal(n as nat));
    }

    /// The finished line.
    pub fn finish(self) -> (text: String)
        requires
            self.wf(),
        ensures
            text@ == join(self.fields()),
    {
        self.text
    }
}

} // verus!
