//! The lines of a plan file: node lines and attribute lines.

use vstd::prelude::*;
use vstd::string::*;

verus! {

/// A line that names a node: the line's number in the file, one more than the
/// bytes of white space before the name, and the name.
#[derive(Debug, PartialEq, Eq)]
pub struct LineNode {
    pub line_num: u32,
    pub indent: u32,
    pub name: String,
}

/// A line that gives the node above it an attribute.
#[derive(Debug, PartialEq, Eq)]
pub struct LineAttribute {
    pub key: String,
    pub value: String,
}

/// A line of the file that says something.
#[derive(Debug, PartialEq, Eq)]
pub enum Line {
    Node(LineNode),
    Attribute(LineAttribute),
}

/// A line as plain values.
pub enum LineView {
    Node { line_num: u32, indent: u32, name: Seq<char> },
    Attribute { key: Seq<char>, value: Seq<char> },
}

impl View for Line {
    type V = LineView;

    open spec fn view(&self) -> LineView {
        match *self {
            Line::Node(n) => LineView::Node {
                line_num: n.line_num,
                indent: n.indent,
                name: n.name@,
            },
            Line::Attribute(a) => LineView::Attribute { key: a.key@, value: a.value@ },
        }
    }
}

impl Clone for LineNode {
    fn clone(&self) -> (r: Self)
        ensures
            r == *self,
    {
        LineNode { line_num: self.line_num, indent: self.indent, name: self.name.clone() }
    }
}

impl Clone for LineAttribute {
    fn clone(&self) -> (r: Self)
        ensures
            r == *self,
    {
        LineAttribute { key: self.key.clone(), value: self.value.clone() }
    }
}

impl Clone for Line {
    fn clone(&self) -> (r: Self)
        ensures
            r == *self,
    {
        match self {
            Line::Node(n) => Line::Node(n.clone()),
            Line::Attribute(a) => Line::Attribute(a.clone()),
        }
    }
}

impl Line {
    pub fn new_node_line(line_num: u32, indent: u32, name: &str) -> (r: Line)
        ensures
            r@ == (LineView::Node { line_num, indent, name: name@ }),
    {
        Line::Node(LineNode { line_num, indent, name: String::from_str(name) })
    }

    pub fn new_attribute_line(key: &str, value: &str) -> (r: Line)
        ensures
            r@ == (LineView::Attribute { key: key@, value: value@ }),
    {
        Line::Attribute(
            LineAttribute { key: String::from_str(key), value: String::from_str(value) },
        )
    }
}

/// Why a line of the file cannot be read.
#[derive(Debug, Clone, Copy, PartialEq, Eq, Structural)]
pub enum LineError {
    /// The line is neither blank, nor a node, nor an attribute.
    Unparsable,
    /// The white space before a node's name is longer than a `u32` can say.
    IndentTooLong,
}

/// What stands before a `#`, as group 1.
pub const COMMENT_PATTERN: &'static str = r"^(?P<content>[^#]*).*$";

/// Nothing but white space.
pub const BLANK_PATTERN: &'static str = r"^\s*$";

/// The white space before a node's name as group 1, the name as group 2.
pub const NODE_PATTERN: &'static str = r"^(?P<indent>\s*)(?P<name>[\w\]\[/\s]+)$";

/// An attribute's key as group 1, its value as group 2.
pub const ATTRIBUTE_PATTERN: &'static str =
    r"^\s*\-\s*(?P<key>[\w\-\./]+)\s*:\s*(?P<value>.*)$";

/// What the `regex` crate finds when it searches `text` for `pattern`: the
/// text of each capture group of the leftmost match, group 0 (the whole match)
/// first and a group that took no part as `None`; `None` where there is no
/// match or the pattern does not compile.
pub uninterp spec fn regex_groups(pattern: Seq<char>, text: Seq<char>) -> Option<
    Seq<Option<Seq<char>>>,
>;

/// Whether a character is white space as Unicode defines it, by the
/// property White_Space.
pub open spec fn is_white_space(c: char) -> bool {
    ||| '\u{9}' <= c <= '\u{d}'
    ||| c == ' '
    ||| c == '\u{85}'
    ||| c == '\u{a0}'
    ||| c == '\u{1680}'
    ||| '\u{2000}' <= c <= '\u{200a}'
    ||| c == '\u{2028}'
    ||| c == '\u{2029}'
    ||| c == '\u{202f}'
    ||| c == '\u{205f}'
    ||| c == '\u{3000}'
}

/// How many characters of white space a text starts with.
pub open spec fn white_before(text: Seq<char>) -> int
    decreases text.len(),
{
    if text.len() == 0 || !is_white_space(text[0]) {
        0
    } else {
        1 + white_before(text.drop_first())
    }
}

/// How many characters of white space a text ends with.
pub open spec fn white_after(text: Seq<char>) -> int
    decreases text.len(),
{
    if text.len() == 0 || !is_white_space(text.last()) {
        0
    } else {
        1 + white_after(text.drop_last())
    }
}

/// A text without the white space at its two ends.
pub open spec fn trimmed(text: Seq<char>) -> Seq<char> {
    if white_before(text) >= text.len() {
        Seq::empty()
    } else {
        text.subrange(white_before(text), text.len() - white_after(text))
    }
}

/// The groups of a match as plain sequences.
pub open spec fn groups_view(groups: Option<Vec<Option<String>>>) -> Option<
    Seq<Option<Seq<char>>>,
> {
    match groups {
        Some(v) => Some(
            Seq::new(
                v@.len(),
                |i: int|
                    match v@[i] {
                        Some(s) => Some(s@),
                        None => None,
                    },
            ),
        ),
        None => None,
    }
}

/// Compiles `pattern` with `regex::Regex::new` and searches `text` with
/// `regex::Regex::captures`; hands out the groups as owned strings. The
/// contract only names what `regex` finds: nothing is claimed of which texts
/// match.
#[verifier::external_body]
pub(crate) fn regex_captures(pattern: &str, text: &str) -> (r: Option<Vec<Option<String>>>)
    ensures
        groups_view(r) == regex_groups(pattern@, text@),
{
    match regex::Regex::new(pattern) {
        Ok(re) => re.captures(text).map(
            |c| c.iter().map(|m| m.map(|x| x.as_str().to_string())).collect(),
        ),
        Err(_) => None,
    }
}

/// `str::trim`, with the result as an owned string. Its documentation says
/// that it removes the white space at both ends of a text, white space being
/// what has the Unicode property White_Space; the contract says so.
#[verifier::external_body]
pub(crate) fn trim(text: &str) -> (r: String)
    ensures
        r@ == trimmed(text@),
{
    text.trim().to_string()
}

/// How many bytes a text takes in UTF-8, as `str::len` counts them.
pub open spec fn byte_length(text: Seq<char>) -> usize {
    vstd::utf8::encode_utf8(text).len() as usize
}

/// The line that the groups of the node pattern and of the attribute pattern
/// stand for. The node pattern goes first; the attribute's value is trimmed.
pub open spec fn line_of_groups(
    line_num: u32,
    node: Option<Seq<Option<Seq<char>>>>,
    attribute: Option<Seq<Option<Seq<char>>>>,
) -> Result<LineView, LineError> {
    match node {
        Some(g) => if g.len() == 3 && g[1] is Some && g[2] is Some {
            let bytes = byte_length(g[1]->0);
            if bytes >= u32::MAX {
                Err(LineError::IndentTooLong)
            } else {
                Ok(LineView::Node { line_num, indent: (bytes + 1) as u32, name: g[2]->0 })
            }
        } else {
            Err(LineError::Unparsable)
        },
        None => match attribute {
            Some(g) => if g.len() == 3 && g[1] is Some && g[2] is Some {
                Ok(LineView::Attribute { key: g[1]->0, value: trimmed(g[2]->0) })
            } else {
                Err(LineError::Unparsable)
            },
            None => Err(LineError::Unparsable),
        },
    }
}

/// What one line of the file says: nothing, where only white space stands
/// before its `#`; else a node or an attribute.
pub open spec fn read_line(line: Seq<char>, line_num: u32) -> Result<Option<LineView>, LineError> {
    match regex_groups(COMMENT_PATTERN@, line) {
        Some(g) => if g.len() == 2 && g[1] is Some {
            let content = g[1]->0;
            if regex_groups(BLANK_PATTERN@, content) is Some {
                Ok(None)
            } else {
                match line_of_groups(
                    line_num,
                    regex_groups(NODE_PATTERN@, content),
                    regex_groups(ATTRIBUTE_PATTERN@, content),
                ) {
                    Ok(l) => Ok(Some(l)),
                    Err(e) => Err(e),
                }
            }
        } else {
            Err(LineError::Unparsable)
        },
        None => Err(LineError::Unparsable),
    }
}

/// Makes the line that the groups of the two patterns stand for.
pub fn line_from_groups(
    line_num: u32,
    node: Option<Vec<Option<String>>>,
    attribute: Option<Vec<Option<String>>>,
) -> (r: Result<Line, LineError>)
    ensures
        match r {
            Ok(l) => line_of_groups(line_num, groups_view(node), groups_view(attribute)) == Ok::<
                LineView,
                LineError,
            >(l@),
            Err(e) => line_of_groups(line_num, groups_view(node), groups_view(attribute)) == Err::<
                LineView,
                LineError,
            >(e),
        },
{
    match node {
        Some(g) => {
            if g.len() != 3 {
                return Err(LineError::Unparsable);
            }
            assert(groups_view(node)->0[1] == match g@[1] {
                Some(s) => Some(s@),
                None => None,
            });
            assert(groups_view(node)->0[2] == match g@[2] {
                Some(s) => Some(s@),
                None => None,
            });
            match (&g[1], &g[2]) {
                (Some(indent), Some(name)) => {
                    let bytes: usize = indent.as_str().len();
                    if bytes >= u32::MAX as usize {
                        return Err(LineError::IndentTooLong);
                    }
                    Ok(Line::new_node_line(line_num, (bytes + 1) as u32, name.as_str()))
                },
                _ => Err(LineError::Unparsable),
            }
        },
        None => match attribute {
            Some(g) => {
                if g.len() != 3 {
                    return Err(LineError::Unparsable);
                }
                assert(groups_view(attribute)->0[1] == match g@[1] {
                    Some(s) => Some(s@),
                    None => None,
                });
                assert(groups_view(attribute)->0[2] == match g@[2] {
                    Some(s) => Some(s@),
                    None => None,
                });
                match (&g[1], &g[2]) {
                    (Some(key), Some(value)) => {
                        let value = trim(value.as_str());
                        Ok(Line::new_attribute_line(key.as_str(), value.as_str()))
                    },
                    _ => Err(LineError::Unparsable),
                }
            },
            None => Err(LineError::Unparsable),
        },
    }
}

/// The lines of a file that say something, and how far they have been read.
pub struct ConfigLines {
    lines: Vec<Line>,
    pos: usize,
}

/// The views of some lines.
pub open spec fn line_views(lines: Seq<Line>) -> Seq<LineView> {
    Seq::new(lines.len(), |i: int| lines[i]@)
}

/// Where reading a file stopped: the number of the line, and why.
#[derive(Debug, Clone, Copy, PartialEq, Eq, Structural)]
pub struct FileError {
    pub line_num: u32,
    pub error: LineError,
}

/// What the lines of a file say, read from the first line on, or the first
/// line that cannot be read. Lines are numbered from 1.
pub open spec fn read_lines(texts: Seq<Seq<char>>) -> Result<Seq<LineView>, FileError>
    decreases texts.len(),
{
    if texts.len() == 0 {
        Ok(Seq::empty())
    } else {
        match read_lines(texts.drop_last()) {
            Err(e) => Err(e),
            Ok(lines) => if texts.len() > u32::MAX {
                Err(FileError { line_num: u32::MAX, error: LineError::Unparsable })
            } else {
                match read_line(texts.last(), texts.len() as u32) {
                    Err(error) => Err(FileError { line_num: texts.len() as u32, error }),
                    Ok(None) => Ok(lines),
                    Ok(Some(l)) => Ok(lines.push(l)),
                }
            },
        }
    }
}

impl ConfigLines {
    /// All the lines, read or not.
    pub closed spec fn lines(&self) -> Seq<LineView> {
        line_views(self.lines@)
    }

    /// How many lines have been read.
    pub closed spec fn position(&self) -> nat {
        self.pos as nat
    }

    /// The lines that have not been read yet.
    pub open spec fn remaining(&self) -> Seq<LineView> {
        if self.position() <= self.lines().len() {
            self.lines().subrange(self.position() as int, self.lines().len() as int)
        } else {
            Seq::empty()
        }
    }

    pub fn new() -> (r: ConfigLines)
        ensures
            r.lines() == Seq::<LineView>::empty(),
            r.position() == 0,
    {
        let r = ConfigLines { lines: Vec::new(), pos: 0 };
        assert(r.lines() =~= Seq::<LineView>::empty());
        r
    }

    pub fn add_line(&mut self, line: Line)
        ensures
            final(self).lines() == old(self).lines().push(line@),
            final(self).position() == old(self).position(),
    {
        self.lines.push(line);
        assert(self.lines() =~= old(self).lines().push(line@));
    }

    /// The next line, which stays unread.
    pub fn peek_line(&self) -> (r: Option<Line>)
        ensures
            match r {
                Some(l) => self.remaining().len() > 0 && l@ == self.remaining()[0],
                None => self.remaining().len() == 0,
            },
    {
        if self.lines.len() > self.pos {
            Some(self.lines[self.pos].clone())
        } else {
            None
        }
    }

    /// Reads the next line.
    pub fn get_line(&mut self) -> (r: Option<Line>)
        ensures
            final(self).lines() == old(self).lines(),
            match r {
                Some(l) => old(self).remaining().len() > 0 && l@ == old(self).remaining()[0]
                    && final(self).position() == old(self).position() + 1,
                None => old(self).remaining().len() == 0 && final(self).position() == old(
                    self,
                ).position(),
            },
    {
        if self.lines.len() > self.pos {
            self.pos = self.pos + 1;
            Some(self.lines[self.pos - 1].clone())
        } else {
            None
        }
    }

    /// Reads one line of the file and keeps what it says, if anything.
    pub fn process_line(&mut self, input_line: &str, line_num: u32) -> (r: Result<(), LineError>)
        ensures
            final(self).position() == old(self).position(),
            match read_line(input_line@, line_num) {
                Ok(Some(l)) => r is Ok && final(self).lines() == old(self).lines().push(l),
                Ok(None) => r is Ok && final(self).lines() == old(self).lines(),
                Err(e) => r == Err::<(), LineError>(e) && final(self).lines() == old(
                    self,
                ).lines(),
            },
    {
        let content = match regex_captures(COMMENT_PATTERN, input_line) {
            Some(g) => {
                if g.len() != 2 {
                    return Err(LineError::Unparsable);
                }
                match &g[1] {
                    Some(c) => c.clone(),
                    None => { return Err(LineError::Unparsable); },
                }
            },
            None => { return Err(LineError::Unparsable); },
        };
        if regex_captures(BLANK_PATTERN, content.as_str()).is_some() {
            return Ok(());
        }
        let node = regex_captures(NODE_PATTERN, content.as_str());
        let attribute = regex_captures(ATTRIBUTE_PATTERN, content.as_str());
        match line_from_groups(line_num, node, attribute) {
            Ok(line) => {
                self.add_line(line);
                Ok(())
            },
            Err(e) => Err(e),
        }
    }

    /// Reads the lines of a file, numbered from 1.
    pub fn from_lines(texts: &Vec<String>) -> (r: Result<ConfigLines, FileError>)
        ensures
            match r {
                Ok(c) => read_lines(texts_view(texts@)) == Ok::<Seq<LineView>, FileError>(
                    c.lines(),
                ) && c.position() == 0,
                Err(e) => read_lines(texts_view(texts@)) == Err::<Seq<LineView>, FileError>(e),
            },
    {
        let mut config = ConfigLines::new();
        let mut i: usize = 0;
        while i < texts.len()
            invariant
                i <= texts@.len(),
                config.position() == 0,
                read_lines(texts_view(texts@).subrange(0, i as int)) == Ok::<
                    Seq<LineView>,
                    FileError,
                >(config.lines()),
            decreases texts@.len() - i,
        {
            let ghost upto = texts_view(texts@).subrange(0, i + 1);
            proof {
                assert(upto.drop_last() == texts_view(texts@).subrange(0, i as int));
                assert(upto.last() == texts@[i as int]@);
                lemma_read_lines_stops(texts_view(texts@), i + 1);
            }
            if i >= u32::MAX as usize {
                return Err(FileError { line_num: u32::MAX, error: LineError::Unparsable });
            }
            let line_num: u32 = (i + 1) as u32;
            match config.process_line(texts[i].as_str(), line_num) {
                Ok(()) => {},
                Err(error) => {
                    return Err(FileError { line_num, error });
                },
            }
            i = i + 1;
        }
        assert(texts_view(texts@).subrange(0, i as int) == texts_view(texts@));
        Ok(config)
    }
}

/// The texts of some strings.
pub open spec fn texts_view(texts: Seq<String>) -> Seq<Seq<char>> {
    Seq::new(texts.len(), |i: int| texts[i]@)
}

/// Reading that failed on the first lines of a file fails in the same way on
/// the whole file.
proof fn lemma_read_lines_stops(texts: Seq<Seq<char>>, k: int)
    requires
        0 <= k <= texts.len(),
    ensures
        read_lines(texts.subrange(0, k)) is Err ==> read_lines(texts) == read_lines(
            texts.subrange(0, k),
        ),
    decreases texts.len() - k,
{
    if k < texts.len() {
        lemma_read_lines_stops(texts, k + 1);
        let longer = texts.subrange(0, k + 1);
        assert(longer.drop_last() == texts.subrange(0, k));
    } else {
        assert(texts.subrange(0, k) == texts);
    }
}

} // verus!
