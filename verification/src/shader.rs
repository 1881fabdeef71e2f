use vstd::prelude::*;
use vstd::string::{StrSliceExecFns, StringExecFns};

verus! {

/// A linked shader program, known by the id that the graphics driver gave it.
pub struct Shader(u32);

impl View for Shader {
    type V = u32;

    closed spec fn view(&self) -> u32 {
        self.0
    }
}

impl Shader {
    /// The shader for the linked program `program`.
    pub fn from_program(program: u32) -> (shader: Self)
        ensures
            shader@ == program,
    {
        Self(program)
    }

    /// The id of the program.
    pub fn get_id(&self) -> (id: u32)
        ensures
            id == self@,
    {
        self.0
    }
}

/// White space, as Unicode defines it.
pub open spec fn is_space(c: char) -> bool {
    let u = c as u32;
    ||| 0x09 <= u <= 0x0D
    ||| u == 0x20
    ||| u == 0x85
    ||| u == 0xA0
    ||| u == 0x1680
    ||| 0x2000 <= u <= 0x200A
    ||| u == 0x2028
    ||| u == 0x2029
    ||| u == 0x202F
    ||| u == 0x205F
    ||| u == 0x3000
}

/// The position of the first line feed of `s` at or after `from`, or the
/// length of `s` where there is none.
pub open spec fn line_end(s: Seq<char>, from: int) -> int
    decreases s.len() - from,
{
    if from >= s.len() {
        s.len() as int
    } else if s[from] == '\n' {
        from
    } else {
        line_end(s, from + 1)
    }
}

/// The position of the first character of `s` at or after `from` that is no
/// white space, or the length of `s` where there is none.
pub open spec fn text_start(s: Seq<char>, from: int) -> int
    decreases s.len() - from,
{
    if from >= s.len() {
        s.len() as int
    } else if !is_space(s[from]) {
        from
    } else {
        text_start(s, from + 1)
    }
}

/// The position of the first character of `s` at or after `from` that is
/// neither a hyphen nor a blank, or the length of `s` where there is none.
pub open spec fn name_start(s: Seq<char>, from: int) -> int
    decreases s.len() - from,
{
    if from >= s.len() {
        s.len() as int
    } else if s[from] != '-' && s[from] != ' ' {
        from
    } else {
        name_start(s, from + 1)
    }
}

/// A line is a heading when its text, after any white space, begins with
/// two hyphens.
pub open spec fn is_heading(line: Seq<char>) -> bool {
    let t = text_start(line, 0);
    t + 1 < line.len() && line[t] == '-' && line[t + 1] == '-'
}

/// The name that a heading gives: the line without the hyphens and blanks
/// that it begins with.
pub open spec fn heading_name(line: Seq<char>) -> Seq<char> {
    line.subrange(name_start(line, 0), line.len() as int)
}

/// How far a source has been read: the sections that are complete, the name
/// of the section that is open, if any, and the code collected since the
/// last heading.
pub struct Progress {
    pub done: Seq<(Seq<char>, Seq<char>)>,
    pub open: Option<Seq<char>>,
    pub code: Seq<char>,
}

impl Progress {
    /// Nothing read yet.
    pub open spec fn start() -> Progress {
        Progress { done: Seq::empty(), open: None, code: Seq::empty() }
    }

    /// The sections so far with the open one, if any, completed.
    pub open spec fn closed(self) -> Seq<(Seq<char>, Seq<char>)> {
        match self.open {
            Some(name) => self.done.push((name, self.code)),
            None => self.done,
        }
    }

    /// The progress after one more line. An empty line is passed over. A
    /// heading completes the open section and opens the one it names, with no
    /// code yet. Any other line is added to the code, with a line feed.
    pub open spec fn step(self, line: Seq<char>) -> Progress {
        if line.len() == 0 {
            self
        } else if is_heading(line) {
            Progress { done: self.closed(), open: Some(heading_name(line)), code: Seq::empty() }
        } else {
            Progress { code: self.code + line + seq!['\n'], ..self }
        }
    }
}

/// The line of `s` from `from` to `end`: without the carriage return before
/// the line feed that ends it, if it has both.
pub open spec fn line_at(s: Seq<char>, from: int, end: int) -> Seq<char> {
    if end < s.len() && from < end && s[end - 1] == '\r' {
        s.subrange(from, end - 1)
    } else {
        s.subrange(from, end)
    }
}

/// The sections of the source `s`, read line by line from position `from`
/// with the progress made before. A line ends at a line feed or at the end of
/// the source; nothing follows the last line feed.
pub open spec fn scan(s: Seq<char>, from: int, progress: Progress) -> Seq<(Seq<char>, Seq<char>)>
    decreases s.len() - from,
{
    if from < 0 || from >= s.len() {
        progress.closed()
    } else {
        let end = line_end(s, from);
        proof {
            lemma_line_end_bounds(s, from);
        }
        let next = progress.step(line_at(s, from, end));
        if end >= s.len() {
            next.closed()
        } else {
            scan(s, end + 1, next)
        }
    }
}

/// The sections of a shader source, each with its name and its code, in the
/// order of their headings.
pub open spec fn sections_of(source: Seq<char>) -> Seq<(Seq<char>, Seq<char>)> {
    scan(source, 0, Progress::start())
}

/// The code of the last of `sections` with the name `name`.
pub open spec fn section_named(sections: Seq<(Seq<char>, Seq<char>)>, name: Seq<char>) -> Option<
    Seq<char>,
>
    decreases sections.len(),
{
    if sections.len() == 0 {
        None
    } else if sections.last().0 == name {
        Some(sections.last().1)
    } else {
        section_named(sections.drop_last(), name)
    }
}

/// Names and codes of sections as sequences of characters.
pub open spec fn texts(sections: Seq<(String, String)>) -> Seq<(Seq<char>, Seq<char>)> {
    sections.map_values(|p: (String, String)| (p.0@, p.1@))
}

/// A line ends at or after the position where it begins, at a line feed or
/// at the end of the source.
pub proof fn lemma_line_end_bounds(s: Seq<char>, from: int)
    requires
        0 <= from <= s.len(),
    ensures
        from <= line_end(s, from) <= s.len(),
        line_end(s, from) < s.len() ==> s[line_end(s, from)] == '\n',
    decreases s.len() - from,
{
    if from < s.len() && s[from] != '\n' {
        lemma_line_end_bounds(s, from + 1);
    }
}

/// Whether `c` is white space.
fn space(c: char) -> (b: bool)
    ensures
        b == is_space(c),
{
    let u = c as u32;
    (0x09 <= u && u <= 0x0D) || u == 0x20 || u == 0x85 || u == 0xA0 || u == 0x1680 || (0x2000 <= u
        && u <= 0x200A) || u == 0x2028 || u == 0x2029 || u == 0x202F || u == 0x205F || u == 0x3000
}

/// The characters of `text`.
fn characters(text: &str) -> (chars: Vec<char>)
    ensures
        chars@ == text@,
{
    let mut chars: Vec<char> = Vec::new();
    for c in it: text.chars()
        invariant
            chars@ == it.seq().take(it.index() as int),
            it.seq() == text@,
    {
        chars.push(c);
    }
    chars
}

/// Where the line that begins at `from` ends.
fn find_line_end(chars: &Vec<char>, from: usize) -> (end: usize)
    requires
        from <= chars.len(),
    ensures
        end == line_end(chars@, from as int),
        from <= end <= chars.len(),
{
    let mut end = from;
    while end < chars.len() && chars[end] != '\n'
        invariant
            from <= end <= chars.len(),
            line_end(chars@, from as int) == line_end(chars@, end as int),
        decreases chars.len() - end,
    {
        end += 1;
    }
    end
}

/// Where the text of the line from `from` to `stop` begins.
fn find_text_start(chars: &Vec<char>, from: usize, stop: usize) -> (t: usize)
    requires
        from <= stop <= chars.len(),
    ensures
        from <= t <= stop,
        t - from == text_start(chars@.subrange(from as int, stop as int), 0),
{
    let ghost line = chars@.subrange(from as int, stop as int);
    let mut t = from;
    while t < stop && space(chars[t])
        invariant
            from <= t <= stop <= chars.len(),
            line == chars@.subrange(from as int, stop as int),
            text_start(line, 0) == text_start(line, t - from),
        decreases stop - t,
    {
        assert(line[t - from] == chars@[t as int]);
        t += 1;
    }
    proof {
        if t < stop {
            assert(line[t - from] == chars@[t as int]);
        }
    }
    t
}

/// Where the name of the heading from `from` to `stop` begins.
fn find_name_start(chars: &Vec<char>, from: usize, stop: usize) -> (t: usize)
    requires
        from <= stop <= chars.len(),
    ensures
        from <= t <= stop,
        t - from == name_start(chars@.subrange(from as int, stop as int), 0),
{
    let ghost line = chars@.subrange(from as int, stop as int);
    let mut t = from;
    while t < stop && (chars[t] == '-' || chars[t] == ' ')
        invariant
            from <= t <= stop <= chars.len(),
            line == chars@.subrange(from as int, stop as int),
            name_start(line, 0) == name_start(line, t - from),
        decreases stop - t,
    {
        assert(line[t - from] == chars@[t as int]);
        t += 1;
    }
    proof {
        if t < stop {
            assert(line[t - from] == chars@[t as int]);
        }
    }
    t
}

/// Splits a shader source into its sections. A line that begins, after any
/// white space, with two hyphens is a heading and names the section that
/// follows; the lines up to the next heading are the section's code, each
/// with a line feed. Empty lines and whatever stands before the first
/// heading are left out. The sections come in the order of their headings;
/// where a name occurs twice, `find_section` takes the last.
pub fn parse_shader(input: &str) -> (sections: Vec<(String, String)>)
    ensures
        texts(sections@) == sections_of(input@),
{
    let chars = characters(input);
    let n = chars.len();
    let mut done: Vec<(String, String)> = Vec::new();
    let mut open: Option<String> = None;
    let mut code = String::new();
    let mut from: usize = 0;
    let ghost mut progress = Progress::start();
    proof {
        assert(texts(done@) == progress.done);
    }
    while from < n
        invariant
            from <= n,
            n == chars.len(),
            chars@ == input@,
            progress.done == texts(done@),
            progress.code == code@,
            match open {
                Some(name) => progress.open == Some(name@),
                None => progress.open is None,
            },
            sections_of(input@) == scan(input@, from as int, progress),
        decreases n - from,
    {
        let end = find_line_end(&chars, from);
        let stop = if end < n && from < end && chars[end - 1] == '\r' {
            end - 1
        } else {
            end
        };
        let ghost line = line_at(input@, from as int, end as int);
        assert(line == input@.subrange(from as int, stop as int));
        if stop > from {
            let t = find_text_start(&chars, from, stop);
            if t < stop - 1 && chars[t] == '-' && chars[t + 1] == '-' {
                assert(is_heading(line));
                if let Some(name) = open {
                    done.push((name, code));
                }
                let begin = find_name_start(&chars, from, stop);
                open = Some(String::from_str(input.substring_char(begin, stop)));
                code = String::new();
                proof {
                    assert(heading_name(line) == input@.subrange(begin as int, stop as int));
                    assert(texts(done@) == progress.closed());
                }
            } else {
                assert(!is_heading(line));
                code.append(input.substring_char(from, stop));
                proof {
                    reveal_strlit("\n");
                }
                code.append("\n");
                proof {
                    assert("\n"@ == seq!['\n']);
                }
            }
        }
        proof {
            progress = progress.step(line);
        }
        from = if end < n {
            end + 1
        } else {
            n
        };
    }
    if let Some(name) = open {
        done.push((name, code));
    }
    proof {
        assert(texts(done@) == progress.closed());
    }
    done
}

/// The code of the section named `name`: of the last such section where
/// there are several, and `None` where there is none.
pub fn find_section<'a>(sections: &'a Vec<(String, String)>, name: &str) -> (code: Option<
    &'a String,
>)
    ensures
        match code {
            Some(c) => section_named(texts(sections@), name@) == Some(c@),
            None => section_named(texts(sections@), name@) is None,
        },
{
    let wanted = String::from_str(name);
    let mut i = sections.len();
    proof {
        assert(texts(sections@).take(i as int) == texts(sections@));
    }
    while i > 0
        invariant
            i <= sections.len(),
            wanted@ == name@,
            section_named(texts(sections@), name@) == section_named(
                texts(sections@).take(i as int),
                name@,
            ),
        decreases i,
    {
        let ghost all = texts(sections@);
        proof {
            assert(all.take(i as int).last() == all[i - 1]);
            assert(all.take(i as int).drop_last() == all.take(i - 1));
        }
        if sections[i - 1].0 == wanted {
            return Some(&sections[i - 1].1);
        }
        i -= 1;
    }
    None
}

/// Why no shader could be made from a source.
#[derive(Clone, Copy, Debug, PartialEq, Eq, Structural)]
pub enum ShaderError {
    /// The source has no section of the name asked for.
    NotFound,
}

/// The codes of the vertex and the fragment section of a shader source, for
/// the driver to compile. Both sections must be there.
pub fn shader_sources(contents: &str, vertex_section: &str, fragment_section: &str) -> (result:
    Result<(String, String), ShaderError>)
    ensures
        match (
            section_named(sections_of(contents@), vertex_section@),
            section_named(sections_of(contents@), fragment_section@),
        ) {
            (Some(vertex), Some(fragment)) => result is Ok && result->Ok_0.0@ == vertex
                && result->Ok_0.1@ == fragment,
            _ => result == Err::<(String, String), ShaderError>(ShaderError::NotFound),
        },
{
    let parsed = parse_shader(contents);
    let vertex = match find_section(&parsed, vertex_section) {
        Some(code) => code.clone(),
        None => {
            return Err(ShaderError::NotFound);
        },
    };
    let fragment = match find_section(&parsed, fragment_section) {
        Some(code) => code.clone(),
        None => {
            return Err(ShaderError::NotFound);
        },
    };
    Ok((vertex, fragment))
}

} // verus!
