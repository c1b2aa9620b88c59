//! A line-indexed view of a source buffer, as the editor keeps it.
//!
//! The buffer is stored as one `String` per line; every line except the last
//! ends with `'\n'`, and a buffer whose text ends with `'\n'` carries a final
//! empty line so the caret can sit past the last newline.
//!
//! All counts and columns here are in characters, deliberately: `nr_of_chars`
//! counts characters, and the `index`/`column` parameters are character
//! positions.  An accounting that mixes byte totals with per-character
//! deletions drifts apart on multi-byte text (deleting a character would not
//! take its byte count off the total), so the character reading is the one
//! this type's contracts fix, matching the field's name and the caret
//! semantics of `TextPos::column`.

use vstd::prelude::*;
use vstd::string::*;
use crate::ui::{
    is_out_of_bounds, out_of_bounds_error, Selection, TextPos, UIResult,
};

verus! {

/// Relies on std's `String::push`: appends the given character to the end
/// of the string.
pub assume_specification[ String::push ](s: &mut String, c: char)
    ensures
        final(s)@ == old(s)@.push(c),
;

/// The characters of all lines, in order.
pub open spec fn concat_views(lines: Seq<String>) -> Seq<char>
    decreases lines.len(),
{
    if lines.len() == 0 {
        Seq::empty()
    } else {
        lines[0]@ + concat_views(lines.drop_first())
    }
}

pub proof fn lemma_concat_views_push(lines: Seq<String>, x: String)
    ensures
        concat_views(lines.push(x)) == concat_views(lines) + x@,
    decreases lines.len(),
{
    if lines.len() == 0 {
        assert(lines.push(x).drop_first() =~= Seq::<String>::empty());
        assert(concat_views(Seq::<String>::empty()) =~= Seq::<char>::empty());
        assert(concat_views(lines.push(x)) =~= concat_views(lines) + x@);
    } else {
        assert(lines.push(x).drop_first() =~= lines.drop_first().push(x));
        lemma_concat_views_push(lines.drop_first(), x);
        assert(concat_views(lines.push(x)) =~= concat_views(lines) + x@);
    }
}

/// How one character shows in a rendered row: a newline as the two
/// characters `\n`, anything else as itself.
pub open spec fn rendered(c: char) -> Seq<char> {
    if c == '\n' {
        seq!['\\', 'n']
    } else {
        seq![c]
    }
}

/// A row rendered for display: its characters, separated by single spaces,
/// each shown through `rendered`.
pub open spec fn row_body(row: Seq<char>) -> Seq<char>
    decreases row.len(),
{
    if row.len() == 0 {
        Seq::empty()
    } else if row.len() == 1 {
        rendered(row.last())
    } else {
        row_body(row.drop_last()) + seq![' '] + rendered(row.last())
    }
}

/// All rows rendered for display, each on a line of its own.
pub open spec fn rendered_rows(lines: Seq<String>) -> Seq<char>
    decreases lines.len(),
{
    if lines.len() == 0 {
        Seq::empty()
    } else {
        rendered_rows(lines.drop_last()) + seq!['\n'] + row_body(lines.last()@)
    }
}

/// The line decomposition is the inclusive split of the text at newlines:
/// every line but the last ends with `'\n'` and holds no other newline, and
/// the last line holds none at all.
pub open spec fn lines_well_split(lines: Seq<String>) -> bool {
    &&& forall|i: int, j: int|
        0 <= i < lines.len() && 0 <= j < lines[i]@.len() - 1 ==> lines[i]@[j] != '\n'
    &&& forall|i: int|
        0 <= i < lines.len() - 1 ==> lines[i]@.len() > 0 && lines[i]@.last() == '\n'
    &&& lines.len() > 0 ==> (lines.last()@.len() == 0 || lines.last()@.last() != '\n')
}

#[derive(Debug)]
pub struct CodeLines {
    pub lines: Vec<String>,
    pub nr_of_chars: usize,
}

impl CodeLines {
    /// Splits `code_str` after every newline; a text that ends with a newline
    /// gets a final empty line.
    pub fn from_str(code_str: &str) -> (c: CodeLines)
        ensures
            c.nr_of_chars == code_str@.len(),
            concat_views(c.lines@) == code_str@,
            lines_well_split(c.lines@),
            c.lines@.len() == 0 <==> code_str@.len() == 0,
    {
        let n = code_str.unicode_len();
        let mut lines: Vec<String> = Vec::new();
        let mut start: usize = 0;
        let mut i: usize = 0;
        while i < n
            invariant
                0 <= start <= i <= n,
                n == code_str@.len(),
                concat_views(lines@) == code_str@.subrange(0, start as int),
                start == 0 || code_str@[start - 1] == '\n',
                forall|k: int| start <= k < i ==> code_str@[k] != '\n',
                forall|li: int, j: int|
                    0 <= li < lines@.len() && 0 <= j < lines@[li]@.len() - 1
                        ==> lines@[li]@[j] != '\n',
                forall|li: int|
                    0 <= li < lines@.len() ==> lines@[li]@.len() > 0 && lines@[li]@.last() == '\n',
                lines@.len() == 0 <==> start == 0,
            decreases n - i,
        {
            if code_str.get_char(i) == '\n' {
                let line = code_str.substring_char(start, i + 1).to_owned();
                proof {
                    lemma_concat_views_push(lines@, line);
                    assert(concat_views(lines@.push(line)) =~= code_str@.subrange(
                        0,
                        i + 1 as int,
                    ));
                }
                lines.push(line);
                start = i + 1;
            }
            i += 1;
        }
        if start < n {
            let line = code_str.substring_char(start, n).to_owned();
            proof {
                lemma_concat_views_push(lines@, line);
                assert(concat_views(lines@.push(line)) =~= code_str@);
            }
            lines.push(line);
        } else if n > 0 {
            // The text ends with a newline: append the empty line after it.
            let line = String::new();
            proof {
                lemma_concat_views_push(lines@, line);
                assert(concat_views(lines@.push(line)) =~= code_str@);
            }
            lines.push(line);
        } else {
            proof {
                assert(concat_views(lines@) =~= code_str@);
            }
        }
        CodeLines { lines, nr_of_chars: n }
    }

    /// Inserts `new_str` into line `line_nr` at column `index`.
    pub fn insert_between_line(&mut self, line_nr: usize, index: usize, new_str: &str) -> (r:
        UIResult<()>)
        requires
            line_nr < old(self).lines@.len() ==> index <= old(self).lines@[line_nr as int]@.len(),
            line_nr < old(self).lines@.len() ==> old(self).nr_of_chars + new_str@.len()
                <= usize::MAX,
        ensures
            line_nr < old(self).lines@.len() ==> {
                &&& r is Ok
                &&& final(self).lines@.len() == old(self).lines@.len()
                &&& final(self).lines@[line_nr as int]@ == old(self).lines@[line_nr as int]@
                    .take(index as int) + new_str@ + old(self).lines@[line_nr as int]@.skip(
                    index as int,
                )
                &&& forall|k: int|
                    0 <= k < old(self).lines@.len() && k != line_nr ==> final(self).lines@[k]
                        == old(self).lines@[k]
                &&& final(self).nr_of_chars == old(self).nr_of_chars + new_str@.len()
            },
            line_nr >= old(self).lines@.len() ==> {
                &&& *final(self) == *old(self)
                &&& is_out_of_bounds(r, line_nr as int, old(self).lines@.len() as int,
                "code_lines.lines"@)
            },
    {
        if line_nr >= self.lines.len() {
            return Err(out_of_bounds_error(line_nr, "code_lines.lines", self.lines.len()));
        }
        let line_len = self.lines[line_nr].as_str().unicode_len();
        let mut newl = self.lines[line_nr].as_str().substring_char(0, index).to_owned();
        newl.append(new_str);
        let suffix = self.lines[line_nr].as_str().substring_char(index, line_len).to_owned();
        newl.append(suffix.as_str());
        let ghost old_line = self.lines@[line_nr as int]@;
        self.lines[line_nr] = newl;
        self.nr_of_chars = self.nr_of_chars + new_str.unicode_len();
        proof {
            assert(final(self).lines@[line_nr as int]@ =~= old_line.take(index as int) + new_str@
                + old_line.skip(index as int));
        }
        Ok(())
    }

    /// Inserts an empty line so that it becomes line `line_nr`.
    pub fn insert_empty_line(&mut self, line_nr: usize) -> (r: UIResult<()>)
        ensures
            line_nr <= old(self).lines@.len() ==> {
                &&& r is Ok
                &&& final(self).lines@.len() == old(self).lines@.len() + 1
                &&& final(self).lines@[line_nr as int]@ == Seq::<char>::empty()
                &&& forall|k: int|
                    0 <= k < line_nr ==> final(self).lines@[k] == old(self).lines@[k]
                &&& forall|k: int|
                    line_nr < k <= old(self).lines@.len() ==> final(self).lines@[k]
                        == old(self).lines@[k - 1]
                &&& final(self).nr_of_chars == old(self).nr_of_chars
            },
            line_nr > old(self).lines@.len() ==> {
                &&& *final(self) == *old(self)
                &&& is_out_of_bounds(r, line_nr as int, old(self).lines@.len() as int,
                "code_lines.lines"@)
            },
    {
        if line_nr <= self.lines.len() {
            self.lines.insert(line_nr, String::new());
            Ok(())
        } else {
            Err(out_of_bounds_error(line_nr, "code_lines.lines", self.lines.len()))
        }
    }

    /// Deletes the character at column `index` of line `line_nr`.
    pub fn del_at_line(&mut self, line_nr: usize, index: usize) -> (r: UIResult<()>)
        requires
            line_nr < old(self).lines@.len() ==> index < old(self).lines@[line_nr as int]@.len(),
            line_nr < old(self).lines@.len() ==> old(self).nr_of_chars >= 1,
        ensures
            line_nr < old(self).lines@.len() ==> {
                &&& r is Ok
                &&& final(self).lines@.len() == old(self).lines@.len()
                &&& final(self).lines@[line_nr as int]@ == old(self).lines@[line_nr as int]@
                    .take(index as int) + old(self).lines@[line_nr as int]@.skip(index + 1)
                &&& forall|k: int|
                    0 <= k < old(self).lines@.len() && k != line_nr ==> final(self).lines@[k]
                        == old(self).lines@[k]
                &&& final(self).nr_of_chars == old(self).nr_of_chars - 1
            },
            line_nr >= old(self).lines@.len() ==> {
                &&& *final(self) == *old(self)
                &&& is_out_of_bounds(r, line_nr as int, old(self).lines@.len() as int,
                "code_lines.lines"@)
            },
    {
        if line_nr >= self.lines.len() {
            return Err(out_of_bounds_error(line_nr, "code_lines.lines", self.lines.len()));
        }
        let line_len = self.lines[line_nr].as_str().unicode_len();
        let mut newl = self.lines[line_nr].as_str().substring_char(0, index).to_owned();
        let suffix = self.lines[line_nr].as_str().substring_char(index + 1, line_len).to_owned();
        newl.append(suffix.as_str());
        let ghost old_line = self.lines@[line_nr as int]@;
        self.lines[line_nr] = newl;
        self.nr_of_chars = self.nr_of_chars - 1;
        proof {
            assert(final(self).lines@[line_nr as int]@ =~= old_line.take(index as int)
                + old_line.skip(index + 1));
        }
        Ok(())
    }

    /// Deletes the selected span. Only a selection within one line changes
    /// the buffer; a selection across lines is left untouched.
    pub fn del_selection(&mut self, selection: Selection) -> (r: UIResult<()>)
        requires
            (selection.start_pos.line == selection.end_pos.line && selection.start_pos.line
                < old(self).lines@.len()) ==> selection.start_pos.column
                <= selection.end_pos.column <= old(self).lines@[
                selection.start_pos.line as int
            ]@.len(),
        ensures
            (selection.start_pos.line == selection.end_pos.line && selection.start_pos.line
                < old(self).lines@.len()) ==> {
                &&& r is Ok
                &&& final(self).lines@.len() == old(self).lines@.len()
                &&& final(self).lines@[selection.start_pos.line as int]@ == old(self).lines@[
                    selection.start_pos.line as int
                ]@.take(selection.start_pos.column as int) + old(self).lines@[
                    selection.start_pos.line as int
                ]@.skip(selection.end_pos.column as int)
                &&& forall|k: int|
                    0 <= k < old(self).lines@.len() && k != selection.start_pos.line
                        ==> final(self).lines@[k] == old(self).lines@[k]
                &&& final(self).nr_of_chars == old(self).nr_of_chars
            },
            (selection.start_pos.line == selection.end_pos.line && selection.start_pos.line
                >= old(self).lines@.len()) ==> {
                &&& *final(self) == *old(self)
                &&& is_out_of_bounds(r, selection.start_pos.line as int,
                old(self).lines@.len() as int, "code_lines.lines"@)
            },
            selection.start_pos.line != selection.end_pos.line ==> {
                &&& *final(self) == *old(self)
                &&& r is Ok
            },
    {
        if selection.is_on_same_line() {
            let line_nr = selection.start_pos.line;
            if line_nr >= self.lines.len() {
                return Err(out_of_bounds_error(line_nr, "code_lines.lines", self.lines.len()));
            }
            let line_len = self.lines[line_nr].as_str().unicode_len();
            let mut newl = self.lines[line_nr].as_str().substring_char(
                0,
                selection.start_pos.column,
            ).to_owned();
            let suffix = self.lines[line_nr].as_str().substring_char(
                selection.end_pos.column,
                line_len,
            ).to_owned();
            newl.append(suffix.as_str());
            let ghost old_line = self.lines@[line_nr as int]@;
            self.lines[line_nr] = newl;
            proof {
                assert(final(self).lines@[line_nr as int]@ =~= old_line.take(
                    selection.start_pos.column as int,
                ) + old_line.skip(selection.end_pos.column as int));
            }
            Ok(())
        } else {
            // Selections that span several lines are left untouched.
            Ok(())
        }
    }

    /// The position just past the last character: last line, last column.
    pub fn end_txt_pos(&self) -> (r: TextPos)
        requires
            self.lines@.len() > 0,
        ensures
            r.line == self.lines@.len() - 1,
            r.column == self.lines@.last()@.len(),
    {
        let last_line = self.nr_of_lines() - 1;
        let column = self.lines[last_line].as_str().unicode_len();
        TextPos { line: last_line, column }
    }

    /// Whether line `line_nr` consists of a single newline character.
    pub fn line_is_only_newline(&self, line_nr: usize) -> (r: UIResult<bool>)
        ensures
            line_nr < self.lines@.len() ==> r == UIResult::<bool>::Ok(
                self.lines@[line_nr as int]@ == seq!['\n'],
            ),
            line_nr >= self.lines@.len() ==> is_out_of_bounds(r, line_nr as int,
                self.lines@.len() as int, "code_lines.lines"@),
    {
        if line_nr >= self.lines.len() {
            return Err(out_of_bounds_error(line_nr, "code_lines.lines", self.lines.len()));
        }
        let line = self.lines[line_nr].as_str();
        let b = if line.unicode_len() == 1 {
            line.get_char(0) == '\n'
        } else {
            false
        };
        proof {
            if b {
                assert(self.lines@[line_nr as int]@ =~= seq!['\n']);
            }
            if self.lines@[line_nr as int]@ == seq!['\n'] {
                assert(self.lines@[line_nr as int]@.len() == 1);
                assert(self.lines@[line_nr as int]@[0] == '\n');
            }
        }
        Ok(b)
    }

    /// The text of line `line_nr`.
    pub fn get_line(&self, line_nr: usize) -> (r: UIResult<&str>)
        ensures
            line_nr < self.lines@.len() ==> (r matches Ok(s) && s@ == self.lines@[
                line_nr as int
            ]@),
            line_nr >= self.lines@.len() ==> is_out_of_bounds(r, line_nr as int,
                self.lines@.len() as int, "code_lines.lines"@),
    {
        if line_nr >= self.lines.len() {
            return Err(out_of_bounds_error(line_nr, "code_lines.lines", self.lines.len()));
        }
        Ok(self.lines[line_nr].as_str())
    }

    /// The number of characters in line `line_nr`.
    pub fn line_len(&self, line_nr: usize) -> (r: UIResult<usize>)
        ensures
            line_nr < self.lines@.len() ==> r == UIResult::<usize>::Ok(
                self.lines@[line_nr as int]@.len() as usize,
            ),
            line_nr >= self.lines@.len() ==> is_out_of_bounds(r, line_nr as int,
                self.lines@.len() as int, "code_lines.lines"@),
    {
        if line_nr >= self.lines.len() {
            return Err(out_of_bounds_error(line_nr, "code_lines.lines", self.lines.len()));
        }
        Ok(self.lines[line_nr].as_str().unicode_len())
    }

    pub fn nr_of_lines(&self) -> (n: usize)
        ensures
            n == self.lines@.len(),
    {
        self.lines.len()
    }

    pub fn nr_of_chars(&self) -> (n: usize)
        ensures
            n == self.nr_of_chars,
    {
        self.nr_of_chars
    }

    /// All lines joined back into one text.
    pub fn all_lines(&self) -> (r: String)
        ensures
            r@ == concat_views(self.lines@),
    {
        let mut r = String::new();
        let mut i: usize = 0;
        proof {
            assert(self.lines@.take(0) =~= Seq::<String>::empty());
        }
        while i < self.lines.len()
            invariant
                0 <= i <= self.lines@.len(),
                r@ == concat_views(self.lines@.take(i as int)),
            decreases self.lines@.len() - i,
        {
            proof {
                assert(self.lines@.take(i + 1 as int) =~= self.lines@.take(i as int).push(
                    self.lines@[i as int],
                ));
                lemma_concat_views_push(self.lines@.take(i as int), self.lines@[i as int]);
            }
            r.append(self.lines[i].as_str());
            i += 1;
        }
        proof {
            assert(self.lines@.take(self.lines@.len() as int) =~= self.lines@);
        }
        r
    }

    /// All lines rendered for display: each row on a line of its own, its
    /// characters separated by spaces, newlines escaped as `\n`.
    pub fn display_rows(&self) -> (r: String)
        ensures
            r@ == rendered_rows(self.lines@),
    {
        let mut r = String::new();
        let mut i: usize = 0;
        proof {
            assert(self.lines@.take(0) =~= Seq::<String>::empty());
        }
        while i < self.lines.len()
            invariant
                0 <= i <= self.lines@.len(),
                r@ == rendered_rows(self.lines@.take(i as int)),
            decreases self.lines@.len() - i,
        {
            r.push('\n');
            let row = self.lines[i].as_str();
            let n = row.unicode_len();
            let mut j: usize = 0;
            proof {
                assert(row@.take(0) =~= Seq::<char>::empty());
                assert(r@ =~= rendered_rows(self.lines@.take(i as int)) + seq!['\n'] + row_body(
                    row@.take(0),
                ));
            }
            while j < n
                invariant
                    0 <= j <= n,
                    n == row@.len(),
                    r@ == rendered_rows(self.lines@.take(i as int)) + seq!['\n'] + row_body(
                        row@.take(j as int),
                    ),
                decreases n - j,
            {
                if j > 0 {
                    r.push(' ');
                }
                let c = row.get_char(j);
                if c == '\n' {
                    let backslash_code: u8 = 92;
                    r.push(backslash_code as char);
                    r.push('n');
                } else {
                    let piece = row.substring_char(j, j + 1);
                    r.append(piece);
                }
                proof {
                    assert(row@.take(j + 1 as int).drop_last() =~= row@.take(j as int));
                    assert(row@.take(j + 1 as int).last() == row@[j as int]);
                    assert(r@ =~= rendered_rows(self.lines@.take(i as int)) + seq!['\n']
                        + row_body(row@.take(j + 1 as int)));
                }
                j += 1;
            }
            proof {
                assert(row@.take(n as int) =~= row@);
                assert(self.lines@.take(i + 1 as int).drop_last() =~= self.lines@.take(i as int));
                assert(self.lines@.take(i + 1 as int).last() == self.lines@[i as int]);
                assert(r@ =~= rendered_rows(self.lines@.take(i + 1 as int)));
            }
            i += 1;
        }
        proof {
            assert(self.lines@.take(self.lines@.len() as int) =~= self.lines@);
        }
        r
    }

    /// Whether `line_nr` is the index of the last line.
    pub fn is_last_line(&self, line_nr: usize) -> (r: bool)
        requires
            self.lines@.len() > 0,
        ensures
            r == (line_nr == self.lines@.len() - 1),
    {
        line_nr == self.nr_of_lines() - 1
    }

    /// The last character of line `line_nr`, if the line is not empty.
    pub fn last_char(&self, line_nr: usize) -> (r: UIResult<Option<char>>)
        ensures
            line_nr < self.lines@.len() ==> r == UIResult::<Option<char>>::Ok(
                if self.lines@[line_nr as int]@.len() == 0 {
                    Option::<char>::None
                } else {
                    Option::Some(self.lines@[line_nr as int]@.last())
                },
            ),
            line_nr >= self.lines@.len() ==> is_out_of_bounds(r, line_nr as int,
                self.lines@.len() as int, "code_lines.lines"@),
    {
        if line_nr >= self.lines.len() {
            return Err(out_of_bounds_error(line_nr, "code_lines.lines", self.lines.len()));
        }
        let line = self.lines[line_nr].as_str();
        let n = line.unicode_len();
        if n == 0 {
            Ok(None)
        } else {
            Ok(Some(line.get_char(n - 1)))
        }
    }
}

} // verus!
