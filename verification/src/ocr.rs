//! Recognised text.
use crate::text::{self, joined, lines, number_in, pieces, trim, views, Separator};
use vstd::prelude::*;

verus! {

/// A recognised word, and its box in the crop as it is written.
#[derive(Debug)]
pub struct TsvWord {
    pub word: String,
    pub left: String,
    pub top: String,
    pub width: String,
    pub height: String,
}

/// What a recognised word says.
pub struct TsvRow {
    pub word: Seq<char>,
    pub left: Seq<char>,
    pub top: Seq<char>,
    pub width: Seq<char>,
    pub height: Seq<char>,
}

impl View for TsvWord {
    type V = TsvRow;

    open spec fn view(&self) -> TsvRow {
        TsvRow {
            word: self.word@,
            left: self.left@,
            top: self.top@,
            width: self.width@,
            height: self.height@,
        }
    }
}

/// What a list of recognised words says.
pub open spec fn tsv_rows(words: Seq<TsvWord>) -> Seq<TsvRow> {
    words.map_values(|w: TsvWord| w@)
}

/// The columns of a line.
pub open spec fn columns(line: Seq<char>) -> Seq<Seq<char>> {
    pieces(line, Separator::Mark('\t'))
}

/// The word that a line is about: its columns are complete, it stands at the
/// level of words, and it says something.
pub open spec fn word_on(line: Seq<char>) -> Option<TsvRow> {
    let cols = columns(line);
    if cols.len() < 12 || number_in(cols[0]) != Some(5int) || trim(cols[11]).len() == 0 {
        None
    } else {
        Some(
            TsvRow { word: trim(cols[11]), left: cols[6], top: cols[7], width: cols[8], height: cols[9] },
        )
    }
}

/// The words that lines are about.
pub open spec fn words_on(ls: Seq<Seq<char>>) -> Seq<TsvRow>
    decreases ls.len(),
{
    if ls.len() == 0 {
        Seq::empty()
    } else {
        match word_on(ls.last()) {
            Some(w) => words_on(ls.drop_last()).push(w),
            None => words_on(ls.drop_last()),
        }
    }
}

/// The words of a table of recognised text, whose first line is its head.
pub open spec fn table_words(tsv: Seq<char>) -> Seq<TsvRow> {
    if lines(tsv).len() == 0 {
        Seq::empty()
    } else {
        words_on(lines(tsv).skip(1))
    }
}

fn word_of(line: &Vec<char>) -> (r: Option<TsvWord>)
    ensures
        match word_on(line@) {
            Some(w) => r matches Some(x) && x@ == w,
            None => r is None,
        },
{
    let cols = text::split(line, Separator::Mark('\t'));
    let ghost all = columns(line@);
    assert(all.len() == cols@.len());
    if cols.len() < 12 {
        return None;
    }
    assert(all[0] == cols@[0]@ && all[6] == cols@[6]@ && all[7] == cols@[7]@ && all[8] == cols@[8]@ && all[9]
        == cols@[9]@ && all[11] == cols@[11]@);
    let level = match text::parse_i64(&cols[0]) {
        Some(n) => n == 5,
        None => false,
    };
    if !level {
        return None;
    }
    let word = text::trim_chars(&cols[11]);
    if word.len() == 0 {
        return None;
    }
    Some(
        TsvWord {
            word: text::string_of(&word),
            left: text::string_of(&cols[6]),
            top: text::string_of(&cols[7]),
            width: text::string_of(&cols[8]),
            height: text::string_of(&cols[9]),
        },
    )
}

/// The text of recognised words.
pub open spec fn text_of(words: Seq<TsvRow>) -> Seq<char> {
    joined(words.map_values(|w: TsvRow| w.word), " "@)
}

/// The text and the words of a table of recognised text.
pub fn parse_tsv(tsv: &str) -> (r: (String, Vec<TsvWord>))
    ensures
        tsv_rows(r.1@) == table_words(tsv@),
        r.0@ == text_of(table_words(tsv@)),
{
    let ls = text::lines_of(tsv);
    let ghost all = lines(tsv@);
    assert(all.len() == ls@.len());
    let mut out: Vec<TsvWord> = Vec::new();
    let mut said: Vec<Vec<char>> = Vec::new();
    let ghost want = table_words(tsv@);
    let mut i: usize = 1;
    assert(tsv_rows(out@) =~= Seq::<TsvRow>::empty());
    assert(views(said@) =~= tsv_rows(out@).map_values(|w: TsvRow| w.word));
    if ls.len() > 0 {
        let ghost body = all.skip(1);
        assert(body.take(0) =~= Seq::<Seq<char>>::empty());
        while i < ls.len()
            invariant
                1 <= i <= ls@.len(),
                all == views(ls@),
                body == all.skip(1),
                tsv_rows(out@) == words_on(body.take(i - 1)),
                views(said@) == tsv_rows(out@).map_values(|w: TsvRow| w.word),
            decreases ls@.len() - i,
        {
            assert(body.take(i as int).drop_last() =~= body.take(i - 1));
            assert(body.take(i as int).last() == ls@[i as int]@);
            if let Some(w) = word_of(&ls[i]) {
                let ghost was = tsv_rows(out@);
                let ghost was_said = views(said@);
                let chars = text::chars_of(w.word.as_str());
                let ghost row = w@;
                said.push(chars);
                out.push(w);
                assert(tsv_rows(out@) =~= was.push(row));
                assert(views(said@) =~= was_said.push(row.word));
                assert(views(said@) =~= tsv_rows(out@).map_values(|w: TsvRow| w.word));
            }
            i += 1;
        }
        assert(body.take(i - 1) =~= body);
    }
    assert(tsv_rows(out@) == want);
    let whole = text::join(&said, " ");
    (whole, out)
}

/// A line of at least twelve columns with tabs between them is about a word where
/// its first column says that it is at the level of words and its twelfth says
/// something: that is the word, and its box is in the seventh to the tenth.
/// A shorter line is about none.
pub proof fn law_a_line_tells_a_word(cols: Seq<Seq<char>>)
    requires
        cols.len() > 0,
        forall|i: int| 0 <= i < cols.len() ==> !(#[trigger] cols[i]).contains('\t'),
    ensures
        ({
            let r = word_on(joined(cols, seq!['\t']));
            &&& cols.len() < 12 ==> r is None
            &&& cols.len() >= 12 && number_in(cols[0]) != Some(5int) ==> r is None
            &&& cols.len() >= 12 && trim(cols[11]).len() == 0 ==> r is None
            &&& cols.len() >= 12 && number_in(cols[0]) == Some(5int) && trim(cols[11]).len() > 0 ==> (r matches Some(w)
                && w.word == trim(cols[11]) && w.left == cols[6] && w.top == cols[7] && w.width == cols[8] && w.height
                == cols[9])
        }),
{
    text::law_joined_texts_are_the_pieces(cols, '\t');
}

/// The words of lines are those of the first lines and then those of the others;
/// a line gives its one word or none.
pub proof fn law_lines_tell_their_words(a: Seq<Seq<char>>, b: Seq<Seq<char>>, line: Seq<char>)
    ensures
        words_on(a + b) == words_on(a) + words_on(b),
        word_on(line) matches Some(w) ==> words_on(seq![line]) == seq![w],
        word_on(line) is None ==> words_on(seq![line]).len() == 0,
    decreases b.len(),
{
    let one = seq![line];
    assert(one.drop_last() =~= Seq::<Seq<char>>::empty());
    assert(words_on(one.drop_last()) =~= Seq::<TsvRow>::empty());
    if word_on(line) is Some {
        assert(words_on(one) =~= seq![word_on(line).unwrap()]);
    }
    if b.len() == 0 {
        assert(a + b =~= a);
        assert(words_on(a) + words_on(b) =~= words_on(a));
    } else {
        law_lines_tell_their_words(a, b.drop_last(), line);
        assert((a + b).drop_last() =~= a + b.drop_last());
        assert((a + b).last() == b.last());
        assert(words_on(a + b) =~= words_on(a) + words_on(b));
    }
}

/// The head of a table is not read, whatever it says, and all lines after it are.
pub proof fn law_the_head_is_not_read(head: Seq<char>, rest: Seq<Seq<char>>, last: Seq<char>)
    requires
        !head.contains('\n'),
        !last.contains('\n'),
        last.len() > 0,
        forall|i: int|
            0 <= i < rest.len() ==> !(#[trigger] rest[i]).contains('\n') && !rest[i].contains('\r'),
    ensures
        table_words(joined((seq![head] + rest).push(last), seq!['\n'])) == words_on(rest.push(last)),
{
    let list = seq![head] + rest;
    assert forall|i: int| 0 <= i < list.len() implies !(#[trigger] list[i]).contains('\n') by {
        if i > 0 {
            assert(list[i] == rest[i - 1]);
        }
    }
    text::law_lines(list, last);
    let s = joined(list.push(last), seq!['\n']);
    let ls = lines(s);
    assert forall|i: int| 0 <= i < rest.len() implies #[trigger] ls[i + 1] == rest[i] by {
        assert(list[i + 1] == rest[i]);
        assert(ls[i + 1] == ls[i + 1]);
        if rest[i].len() > 0 && rest[i].last() == '\r' {
            assert(rest[i].contains('\r'));
        }
    }
    assert(ls.skip(1) =~= rest.push(last)) by {
        assert(ls.len() == rest.len() + 2);
        assert forall|i: int| 0 <= i < rest.len() + 1 implies ls.skip(1)[i] == rest.push(last)[i] by {
            if i < rest.len() {
                assert(ls[i + 1] == rest[i]);
            }
        }
    }
}

/// The text of words is all of them in their order, with a space between two.
pub proof fn law_the_text_of_words(a: Seq<TsvRow>, w: TsvRow)
    ensures
        text_of(Seq::<TsvRow>::empty()).len() == 0,
        text_of(seq![w]) == w.word,
        a.len() > 0 ==> text_of(a.push(w)) == text_of(a) + " "@ + w.word,
{
    let f = |w: TsvRow| w.word;
    assert(Seq::<TsvRow>::empty().map_values(f) =~= Seq::<Seq<char>>::empty());
    assert(seq![w].map_values(f) =~= seq![w.word]);
    assert(a.push(w).map_values(f) =~= a.map_values(f).push(w.word));
    assert(a.map_values(f).push(w.word).drop_last() =~= a.map_values(f));
}

} // verus!
