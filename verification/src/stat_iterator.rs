//! The fields of a process's stat record.
//!
//! The second field of a record (the command name) is an arbitrary string
//! that may hold separators and parentheses, so the record cannot simply be
//! split at its separators: the name runs from the first `(` after the
//! identifier to the last `)` of the record.

use vstd::prelude::*;
use vstd::string::StrSliceExecFns;
use crate::text::{
    chars_of, find_char, is_space, is_whitespace, last_index_of, lemma_last_index_of,
    lemma_last_index_of_is, lemma_word_len_is, lemma_words_suffix, rfind_char, scan_word,
    skip_until, word_len, words, words_from,
};

verus! {

/// The content of a process's stat record.
pub struct StatFile(pub String);

/// The position of a [`StatFileIter`] in the grammar of a record.
#[derive(Clone, Copy, PartialEq, Eq, Debug, Structural)]
enum State {
    /// Nothing was yielded yet: the next field is the identifier.
    Pid,
    /// The next field is the command name.
    Command,
    /// The remaining fields are separated by whitespace.
    Normal,
}

/// A cursor over the fields of a stat record.
pub struct StatFileIter<'s> {
    data: &'s str,
    chars: Vec<char>,
    idx: usize,
    state: State,
}

/// The command name of the record `s`, looked for from position `from` on, and
/// the fields behind it.
///
/// The name stands between the first `(` at or after `from` and the last `)`
/// of the record; a record that lacks either, in this order, has no more fields.
pub open spec fn command_fields(s: Seq<char>, from: int) -> Seq<Seq<char>> {
    let open = from + skip_until(s, '(', from);
    let close = last_index_of(s, ')');
    if 0 <= from && open < close {
        seq![s.subrange(open + 1, close)] + words_from(s, close + 1)
    } else {
        Seq::empty()
    }
}

/// The identifier of the record `s`, looked for from position `from` on, and
/// the fields behind it.
///
/// The identifier is the text before the first separator; a record without a
/// separator has no fields.
pub open spec fn identifier_fields(s: Seq<char>, from: int) -> Seq<Seq<char>> {
    let end = from + word_len(s, from);
    if 0 <= from && end < s.len() {
        seq![s.subrange(from, end)] + command_fields(s, end + 1)
    } else {
        Seq::empty()
    }
}

/// The fields of the record `s`, in order: the identifier, the command name
/// without its parentheses, then the words of the rest.
pub open spec fn record_fields(s: Seq<char>) -> Seq<Seq<char>> {
    identifier_fields(s, 0)
}

/// The fields of a well-formed record, whatever its command name holds.
///
/// Take an identifier without separators, one separator, a command name in
/// parentheses and a rest without `)`. The fields of that record are the
/// identifier, the name exactly as it stands between the parentheses (with
/// its own separators and parentheses), and then the words of the rest.
pub proof fn lemma_record_fields_of_parts(
    id: Seq<char>,
    sep: char,
    name: Seq<char>,
    rest: Seq<char>,
)
    requires
        forall|i: int| 0 <= i < id.len() ==> !is_space(#[trigger] id[i]),
        is_space(sep),
        forall|i: int| 0 <= i < rest.len() ==> #[trigger] rest[i] != ')',
    ensures
        record_fields(id + seq![sep, '('] + name + seq![')'] + rest) == seq![id, name] + words(
            rest,
        ),
{
    let head = id + seq![sep, '('] + name + seq![')'];
    let s = head + rest;
    let open: int = id.len() as int + 1;
    let close: int = open + 1 + name.len();
    assert(s[id.len() as int] == sep);
    assert(s[open] == '(');
    assert(s[close] == ')');
    assert forall|j: int| 0 <= j < id.len() implies !is_space(#[trigger] s[j]) by {
        assert(s[j] == id[j]);
    }
    lemma_word_len_is(s, 0, id.len() as int);
    assert forall|j: int| close < j < s.len() implies #[trigger] s[j] != ')' by {
        assert(s[j] == rest[j - head.len()]);
    }
    lemma_last_index_of_is(s, ')', close);
    lemma_words_suffix(head, rest, 0);
    assert(skip_until(s, '(', open) == 0);
    assert(s.subrange(0, id.len() as int) =~= id);
    assert(s.subrange(open + 1, close) =~= name);
    assert(seq![id] + (seq![name] + words(rest)) =~= seq![id, name] + words(rest));
}

impl StatFile {
    /// Creates a cursor over the fields of the record.
    pub fn iter(&self) -> (it: StatFileIter<'_>)
        ensures
            it.record() == self.0@,
            it.remaining() == record_fields(self.0@),
    {
        StatFileIter::from(self.0.as_str())
    }

    /// The field of the record at position `n`, counted from zero.
    pub fn field(&self, n: usize) -> (field: Option<&str>)
        ensures
            match field {
                Some(f) => n < record_fields(self.0@).len() && f@ == record_fields(self.0@)[n as int],
                None => record_fields(self.0@).len() <= n,
            },
    {
        let mut fields = self.iter();
        fields.nth(n)
    }
}

impl<'s> StatFileIter<'s> {
    #[verifier::type_invariant]
    spec fn inv(&self) -> bool {
        self.chars@ == self.data@
    }

    /// The record that the cursor walks.
    pub closed spec fn record(&self) -> Seq<char> {
        self.data@
    }

    /// The fields that the cursor has yet to yield, in order.
    pub closed spec fn remaining(&self) -> Seq<Seq<char>> {
        match self.state {
            State::Pid => identifier_fields(self.data@, self.idx as int),
            State::Command => command_fields(self.data@, self.idx as int),
            State::Normal => words_from(self.data@, self.idx as int),
        }
    }

    /// Creates a cursor that stands before the first field of `data`.
    pub fn from(data: &'s str) -> (it: Self)
        ensures
            it.record() == data@,
            it.remaining() == record_fields(data@),
    {
        StatFileIter { data, chars: chars_of(data), idx: 0, state: State::Pid }
    }

    /// Yields the next field, if the record has one more.
    ///
    /// Once the record has no more fields, the cursor stays where it is.
    pub fn next(&mut self) -> (field: Option<&'s str>)
        ensures
            final(self).record() == old(self).record(),
            match field {
                Some(f) => old(self).remaining().len() > 0 && f@ == old(self).remaining()[0]
                    && final(self).remaining() == old(self).remaining().drop_first(),
                None => old(self).remaining().len() == 0 && *final(self) == *old(self),
            },
    {
        let data: &'s str = self.data;
        let n: usize = self.chars.len();
        proof {
            use_type_invariant(&*self);
            lemma_last_index_of(data@, ')');
        }
        if self.idx > n {
            return None;
        }
        match self.state {
            State::Pid => {
                let end: usize = scan_word(&self.chars, self.idx);
                if end >= n {
                    return None;
                }
                let res: &'s str = data.substring_char(self.idx, end);
                self.idx = end + 1;
                self.state = State::Command;
                proof {
                    let rest = command_fields(data@, end + 1);
                    assert((seq![res@] + rest).drop_first() =~= rest);
                }
                Some(res)
            },
            State::Command => {
                let open: usize = find_char(&self.chars, '(', self.idx);
                match rfind_char(&self.chars, ')') {
                    Some(close) => {
                        if open < close {
                            let res: &'s str = data.substring_char(open + 1, close);
                            self.idx = close + 1;
                            self.state = State::Normal;
                            proof {
                                let rest = words_from(data@, close + 1);
                                assert((seq![res@] + rest).drop_first() =~= rest);
                            }
                            Some(res)
                        } else {
                            None
                        }
                    },
                    None => None,
                }
            },
            State::Normal => {
                let mut start: usize = self.idx;
                while start < n && is_whitespace(self.chars[start])
                    invariant
                        start <= n,
                        n == data@.len(),
                        self.chars@ == data@,
                        words_from(data@, start as int) == words_from(data@, self.idx as int),
                    decreases n - start,
                {
                    start = start + 1;
                }
                if start >= n {
                    return None;
                }
                let end: usize = scan_word(&self.chars, start);
                let res: &'s str = data.substring_char(start, end);
                self.idx = end;
                proof {
                    let rest = words_from(data@, end as int);
                    assert((seq![res@] + rest).drop_first() =~= rest);
                }
                Some(res)
            },
        }
    }

    /// Skips `n` fields and yields the one behind them, if the record has
    /// that many.
    pub fn nth(&mut self, n: usize) -> (field: Option<&'s str>)
        ensures
            final(self).record() == old(self).record(),
            match field {
                Some(f) => n < old(self).remaining().len() && f@ == old(self).remaining()[n as int]
                    && final(self).remaining() == old(self).remaining().skip(n + 1),
                None => old(self).remaining().len() <= n && final(self).remaining().len() == 0,
            },
    {
        let mut i: usize = 0;
        while i < n
            invariant
                i <= n,
                self.record() == old(self).record(),
                i <= old(self).remaining().len(),
                self.remaining() == old(self).remaining().skip(i as int),
            decreases n - i,
        {
            match self.next() {
                Some(_) => {
                    proof {
                        assert(old(self).remaining().skip(i as int).drop_first() =~= old(
                            self,
                        ).remaining().skip(i + 1));
                    }
                },
                None => {
                    return None;
                },
            }
            i = i + 1;
        }
        let field = self.next();
        proof {
            if field.is_some() {
                assert(old(self).remaining().skip(n as int).drop_first() =~= old(
                    self,
                ).remaining().skip(n + 1));
            }
        }
        field
    }
}

} // verus!
