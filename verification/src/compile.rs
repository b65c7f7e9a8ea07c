//! The compile-log parser: a pure function over a sequence of build-log
//! lines producing the ordered list of structured compile invocations that
//! the transcript describes.
//!
//! A block separator is a line beginning with `===`; a block is recognized
//! as a swift module compile when its separator begins with `=== COMPILE `.
//! Within a recognized block, lines ending in `.swift` name source files, a
//! line beginning with `<index-store-path> ` names the index store, and the
//! remaining non-empty lines are the compiler arguments in emission order.
//! A recognized block with no source file is skipped, as is anything that
//! does not match the pattern: unrecognized content is never an error.

use crate::message::{append_escaped, escape_text};
use crate::text::{seq_ends_with, seq_starts_with, str_ends_with, str_starts_with};
use vstd::prelude::*;
use vstd::string::*;

verus! {

/// One structured compiler invocation extracted from a build transcript.
#[derive(Debug, PartialEq)]
pub struct CompileCommand {
    /// Module name taken from the block separator line.
    pub name: String,
    /// Source files named by the block, in order of appearance.
    pub files: Vec<String>,
    /// Compiler arguments, in the exact order the build tool emitted them.
    pub arguments: Vec<String>,
    /// Index-store path, when the block names one.
    pub index_store_path: Option<String>,
}

/// The mathematical content of a `CompileCommand`.
pub ghost struct CommandModel {
    pub name: Seq<char>,
    pub files: Seq<Seq<char>>,
    pub arguments: Seq<Seq<char>>,
    pub index_store_path: Option<Seq<char>>,
}

impl View for CompileCommand {
    type V = CommandModel;

    open spec fn view(&self) -> CommandModel {
        CommandModel {
            name: self.name@,
            files: self.files@.map_values(|f: String| f@),
            arguments: self.arguments@.map_values(|a: String| a@),
            index_store_path: match self.index_store_path {
                Some(p) => Some(p@),
                None => None,
            },
        }
    }
}

/// An ordered compile database: one entry per recognized compile block,
/// duplicates preserved, in build order.
#[derive(Debug, PartialEq)]
pub struct CompileCommands(pub Vec<CompileCommand>);

impl View for CompileCommands {
    type V = Seq<CommandModel>;

    open spec fn view(&self) -> Seq<CommandModel> {
        self.0@.map_values(|c: CompileCommand| c@)
    }
}

pub open spec fn separator_marker() -> Seq<char> {
    "==="@
}

pub open spec fn compile_marker() -> Seq<char> {
    "=== COMPILE "@
}

pub open spec fn separator_suffix() -> Seq<char> {
    " ==="@
}

pub open spec fn index_store_marker() -> Seq<char> {
    "<index-store-path> "@
}

pub open spec fn swift_suffix() -> Seq<char> {
    ".swift"@
}

/// A block separator line.
pub open spec fn is_separator(line: Seq<char>) -> bool {
    seq_starts_with(line, separator_marker())
}

/// A separator opening a swift module compile block.
pub open spec fn is_compile_separator(line: Seq<char>) -> bool {
    seq_starts_with(line, compile_marker())
}

/// The module name on a compile separator: the text after the marker, with
/// a trailing ` ===` removed when present.
pub open spec fn module_name_of(line: Seq<char>) -> Seq<char> {
    let rest = line.skip(compile_marker().len() as int);
    if seq_ends_with(rest, separator_suffix()) {
        rest.take(rest.len() - separator_suffix().len())
    } else {
        rest
    }
}

pub open spec fn is_index_line(line: Seq<char>) -> bool {
    seq_starts_with(line, index_store_marker())
}

pub open spec fn is_source_line(line: Seq<char>) -> bool {
    seq_ends_with(line, swift_suffix())
}

pub open spec fn is_argument_line(line: Seq<char>) -> bool {
    line.len() > 0 && !is_index_line(line)
}

/// The source files a block body names, in order.
pub open spec fn files_of_body(body: Seq<Seq<char>>) -> Seq<Seq<char>>
    decreases body.len(),
{
    if body.len() == 0 {
        Seq::empty()
    } else if is_source_line(body.last()) {
        files_of_body(body.drop_last()).push(body.last())
    } else {
        files_of_body(body.drop_last())
    }
}

/// The compiler arguments a block body carries, in order.
pub open spec fn arguments_of_body(body: Seq<Seq<char>>) -> Seq<Seq<char>>
    decreases body.len(),
{
    if body.len() == 0 {
        Seq::empty()
    } else if is_argument_line(body.last()) {
        arguments_of_body(body.drop_last()).push(body.last())
    } else {
        arguments_of_body(body.drop_last())
    }
}

/// The index-store path of the first index line of the body, if any.
pub open spec fn index_of_body(body: Seq<Seq<char>>) -> Option<Seq<char>>
    decreases body.len(),
{
    if body.len() == 0 {
        None
    } else if is_index_line(body.first()) {
        Some(body.first().skip(index_store_marker().len() as int))
    } else {
        index_of_body(body.drop_first())
    }
}

/// The command a recognized block denotes; a block naming no source file
/// is malformed and yields nothing.
pub open spec fn block_command(sep: Seq<char>, body: Seq<Seq<char>>) -> Option<CommandModel> {
    let files = files_of_body(body);
    if files.len() == 0 {
        None
    } else {
        Some(
            CommandModel {
                name: module_name_of(sep),
                files,
                arguments: arguments_of_body(body),
                index_store_path: index_of_body(body),
            },
        )
    }
}

/// The index of the first separator at or after `i`, or the line count.
pub open spec fn block_end(lines: Seq<Seq<char>>, i: int) -> int
    decreases lines.len() - i,
{
    if i >= lines.len() || i < 0 {
        lines.len() as int
    } else if is_separator(lines[i]) {
        i
    } else {
        block_end(lines, i + 1)
    }
}

proof fn lemma_block_end_props(lines: Seq<Seq<char>>, i: int)
    requires
        0 <= i <= lines.len(),
    ensures
        i <= block_end(lines, i) <= lines.len(),
        forall|k: int| i <= k < block_end(lines, i) ==> !is_separator(lines[k]),
        block_end(lines, i) < lines.len() ==> is_separator(lines[block_end(lines, i)]),
    decreases lines.len() - i,
{
    if i < lines.len() && !is_separator(lines[i]) {
        lemma_block_end_props(lines, i + 1);
    }
}

proof fn lemma_block_end_eq(lines: Seq<Seq<char>>, i: int, j: int)
    requires
        0 <= i <= j <= lines.len(),
        forall|k: int| i <= k < j ==> !is_separator(lines[k]),
        j == lines.len() || is_separator(lines[j]),
    ensures
        block_end(lines, i) == j,
    decreases j - i,
{
    if i < j {
        lemma_block_end_eq(lines, i + 1, j);
    }
}

/// The ordered commands of the transcript, reading from line `i` on.
pub open spec fn parse_from(lines: Seq<Seq<char>>, i: int) -> Seq<CommandModel>
    decreases lines.len() - i,
    via parse_from_decreases
{
    if i >= lines.len() || i < 0 {
        Seq::empty()
    } else if is_compile_separator(lines[i]) {
        let j = block_end(lines, i + 1);
        let rest = parse_from(lines, j);
        match block_command(lines[i], lines.subrange(i + 1, j)) {
            Some(c) => seq![c] + rest,
            None => rest,
        }
    } else {
        parse_from(lines, i + 1)
    }
}

#[via_fn]
proof fn parse_from_decreases(lines: Seq<Seq<char>>, i: int) {
    if 0 <= i < lines.len() && is_compile_separator(lines[i]) {
        lemma_block_end_props(lines, i + 1);
    }
}

/// A compile separator is in particular a block separator.
proof fn lemma_compile_sep_is_sep(line: Seq<char>)
    requires
        is_compile_separator(line),
    ensures
        is_separator(line),
{
    reveal_strlit("===");
    reveal_strlit("=== COMPILE ");
    assert(line.subrange(0, 3) =~= separator_marker()) by {
        assert forall|k: int| 0 <= k < 3 implies line[k] == separator_marker()[k] by {
            assert(line.subrange(0, compile_marker().len() as int)[k] == line[k]);
        }
    }
}

proof fn lemma_parse_skip(lines: Seq<Seq<char>>, a: int, b: int)
    requires
        0 <= a <= b <= lines.len(),
        forall|k: int| a <= k < b ==> !is_separator(lines[k]),
    ensures
        parse_from(lines, a) == parse_from(lines, b),
    decreases b - a,
{
    if a < b {
        if is_compile_separator(lines[a]) {
            lemma_compile_sep_is_sep(lines[a]);
        }
        lemma_parse_skip(lines, a + 1, b);
    }
}

proof fn lemma_index_of_body_push(body: Seq<Seq<char>>, x: Seq<char>)
    ensures
        index_of_body(body.push(x)) == if index_of_body(body) is Some {
            index_of_body(body)
        } else if is_index_line(x) {
            Some(x.skip(index_store_marker().len() as int))
        } else {
            None
        },
    decreases body.len(),
{
    let b = body.push(x);
    assert(b.len() == body.len() + 1);
    if body.len() == 0 {
        assert(b.first() == x);
        assert(b.drop_first() =~= Seq::<Seq<char>>::empty());
        if is_index_line(x) {
            assert(index_of_body(b) == Some(x.skip(index_store_marker().len() as int)));
        } else {
            assert(index_of_body(b) == index_of_body(b.drop_first()));
            assert(index_of_body(b) is None);
        }
    } else {
        assert(b.first() == body.first());
        assert(b.drop_first() =~= body.drop_first().push(x));
        lemma_index_of_body_push(body.drop_first(), x);
        if is_index_line(body.first()) {
            assert(index_of_body(b) == Some(
                body.first().skip(index_store_marker().len() as int),
            ));
        } else {
            assert(index_of_body(b) == index_of_body(body.drop_first().push(x)));
            assert(index_of_body(body) == index_of_body(body.drop_first()));
        }
    }
}

impl CompileCommand {
    /// Extracts the command of the compile block whose separator stands at
    /// `cursor - 1`; the block body runs up to the next separator line.
    pub fn swift_module(lines: &Vec<String>, cursor: usize) -> (r: Option<CompileCommand>)
        requires
            1 <= cursor <= lines@.len(),
            is_compile_separator(lines@.map_values(|l: String| l@)[cursor - 1]),
        ensures
            ({
                let lv = lines@.map_values(|l: String| l@);
                let body = lv.subrange(cursor as int, block_end(lv, cursor as int));
                match r {
                    Some(c) => block_command(lv[cursor - 1], body) == Some(c@),
                    None => block_command(lv[cursor - 1], body) is None,
                }
            }),
    {
        let ghost lv = lines@.map_values(|l: String| l@);
        // find the end of the block
        let n = lines.len();
        let mut j: usize = cursor;
        while j < n
            invariant
                cursor <= j <= n,
                n == lv.len(),
                lv == lines@.map_values(|l: String| l@),
                forall|k: int| cursor <= k < j ==> !is_separator(lv[k]),
            ensures
                cursor <= j <= n,
                forall|k: int| cursor <= k < j ==> !is_separator(lv[k]),
                j == n || is_separator(lv[j as int]),
            decreases n - j,
        {
            if str_starts_with(&lines[j], "===") {
                break;
            }
            j += 1;
        }
        proof {
            lemma_block_end_eq(lv, cursor as int, j as int);
        }
        let ghost body = lv.subrange(cursor as int, j as int);

        // module name from the separator line
        let sep = &lines[cursor - 1];
        let marker_len = "=== COMPILE ".unicode_len();
        let sep_len = sep.unicode_len();
        let rest = sep.substring_char(marker_len, sep_len);
        proof {
            assert(rest@ =~= sep@.skip(compile_marker().len() as int));
        }
        let rest_len = rest.unicode_len();
        let suffix_len = " ===".unicode_len();
        let name = if str_ends_with(rest, " ===") {
            let trimmed = rest.substring_char(0, rest_len - suffix_len);
            proof {
                assert(trimmed@ =~= rest@.take(rest@.len() - separator_suffix().len()));
            }
            trimmed.to_owned()
        } else {
            rest.to_owned()
        };
        assert(name@ == module_name_of(lv[cursor - 1]));

        // classify the body lines
        let mut files: Vec<String> = Vec::new();
        let mut arguments: Vec<String> = Vec::new();
        let mut index_store_path: Option<String> = None;
        let mut k: usize = cursor;
        proof {
            assert(body.take(0) =~= Seq::<Seq<char>>::empty());
        }
        while k < j
            invariant
                cursor <= k <= j <= n,
                n == lv.len(),
                lv == lines@.map_values(|l: String| l@),
                body == lv.subrange(cursor as int, j as int),
                files@.map_values(|f: String| f@) == files_of_body(body.take(k - cursor)),
                arguments@.map_values(|a: String| a@) == arguments_of_body(
                    body.take(k - cursor),
                ),
                match index_store_path {
                    Some(p) => index_of_body(body.take(k - cursor)) == Some(p@),
                    None => index_of_body(body.take(k - cursor)) is None,
                },
            decreases j - k,
        {
            let line = &lines[k];
            let ghost prev = body.take(k - cursor);
            proof {
                assert(body[k - cursor] == lv[k as int]);
                assert(body.take(k - cursor + 1) =~= prev.push(line@));
                assert(body.take(k - cursor + 1).drop_last() =~= prev);
                lemma_index_of_body_push(prev, line@);
            }
            let is_index = str_starts_with(line, "<index-store-path> ");
            if is_index {
                if index_store_path.is_none() {
                    let im_len = "<index-store-path> ".unicode_len();
                    let l_len = line.unicode_len();
                    let path = line.substring_char(im_len, l_len);
                    proof {
                        assert(path@ =~= line@.skip(index_store_marker().len() as int));
                    }
                    index_store_path = Some(path.to_owned());
                }
            } else if line.unicode_len() > 0 {
                let ghost prev_args = arguments@.map_values(|a: String| a@);
                arguments.push(line.clone());
                proof {
                    assert(arguments@.map_values(|a: String| a@) =~= prev_args.push(line@));
                }
            }
            if str_ends_with(line, ".swift") {
                let ghost prev_files = files@.map_values(|f: String| f@);
                files.push(line.clone());
                proof {
                    assert(files@.map_values(|f: String| f@) =~= prev_files.push(line@));
                }
            }
            k += 1;
        }
        proof {
            assert(body.take(j - cursor) =~= body);
        }
        if files.len() == 0 {
            return None;
        }
        Some(
            CompileCommand {
                name,
                files,
                arguments,
                index_store_path,
            },
        )
    }
}

impl CompileCommands {
    /// Parses a build transcript into its compile database: the commands of
    /// the recognized compile blocks, in the order the blocks appear.
    pub fn from_logs(lines: Vec<String>) -> (r: Self)
        ensures
            r@ == parse_from(lines@.map_values(|l: String| l@), 0),
    {
        let ghost lv = lines@.map_values(|l: String| l@);
        let mut commands: Vec<CompileCommand> = Vec::new();
        let mut i: usize = 0;
        proof {
            assert(commands@.map_values(|c: CompileCommand| c@) + parse_from(lv, 0) =~= parse_from(
                lv,
                0,
            ));
        }
        while i < lines.len()
            invariant
                0 <= i <= lines@.len(),
                lv == lines@.map_values(|l: String| l@),
                commands@.map_values(|c: CompileCommand| c@) + parse_from(lv, i as int)
                    == parse_from(lv, 0),
            decreases lines@.len() - i,
        {
            let ghost prev = commands@.map_values(|c: CompileCommand| c@);
            if str_starts_with(&lines[i], "=== COMPILE ") {
                proof {
                    assert(lv[i as int] == lines@[i as int]@);
                }
                let cmd = CompileCommand::swift_module(&lines, i + 1);
                proof {
                    let j = block_end(lv, i as int + 1);
                    lemma_block_end_props(lv, i as int + 1);
                    lemma_parse_skip(lv, i as int + 1, j);
                }
                match cmd {
                    Some(c) => {
                        let ghost cm = c@;
                        commands.push(c);
                        proof {
                            assert(commands@.map_values(|c: CompileCommand| c@) =~= prev.push(cm));
                            let j = block_end(lv, i as int + 1);
                            assert(prev.push(cm) + parse_from(lv, i as int + 1) =~= prev + (seq![
                                cm,
                            ] + parse_from(lv, j)));
                        }
                    },
                    None => {},
                }
            }
            i += 1;
        }
        CompileCommands(commands)
    }
}

/// A JSON string literal: the text escaped, in quotes.
pub open spec fn json_string(s: Seq<char>) -> Seq<char> {
    seq!['"'] + escape_text(s) + seq!['"']
}

pub open spec fn string_array_lines(items: Seq<Seq<char>>) -> Seq<char>
    decreases items.len(),
{
    if items.len() == 0 {
        Seq::empty()
    } else {
        "      "@ + json_string(items.first()) + (if items.len() == 1 {
            "\n"@
        } else {
            ",\n"@
        }) + string_array_lines(items.drop_first())
    }
}

/// A JSON array of strings, one element per line.
pub open spec fn json_string_array(items: Seq<Seq<char>>) -> Seq<char> {
    if items.len() == 0 {
        "[]"@
    } else {
        "[\n"@ + string_array_lines(items) + "    ]"@
    }
}

/// The JSON object of one compile command.
pub open spec fn command_json(c: CommandModel) -> Seq<char> {
    "  {\n    \"name\": "@ + json_string(c.name) + ",\n    \"files\": "@ + json_string_array(
        c.files,
    ) + ",\n    \"arguments\": "@ + json_string_array(c.arguments)
        + ",\n    \"index_store_path\": "@ + (match c.index_store_path {
        Some(p) => json_string(p),
        None => "null"@,
    }) + "\n  }"@
}

pub open spec fn command_lines(cs: Seq<CommandModel>) -> Seq<char>
    decreases cs.len(),
{
    if cs.len() == 0 {
        Seq::empty()
    } else {
        command_json(cs.first()) + (if cs.len() == 1 {
            "\n"@
        } else {
            ",\n"@
        }) + command_lines(cs.drop_first())
    }
}

/// The `.compile` artifact: the whole database as one pretty-printed,
/// deterministic JSON array, fully regenerated on each successful update.
pub open spec fn compile_db_json(cs: Seq<CommandModel>) -> Seq<char> {
    if cs.len() == 0 {
        "[]"@
    } else {
        "[\n"@ + command_lines(cs) + "]"@
    }
}

fn append_json_string(out: &mut String, s: &str)
    ensures
        final(out)@ == old(out)@ + json_string(s@),
{
    out.push('"');
    append_escaped(out, s);
    out.push('"');
    proof {
        assert(out@ =~= old(out)@ + json_string(s@));
    }
}

fn append_string_array(out: &mut String, items: &Vec<String>)
    ensures
        final(out)@ == old(out)@ + json_string_array(items@.map_values(|s: String| s@)),
{
    let ghost v = items@.map_values(|s: String| s@);
    let n = items.len();
    if n == 0 {
        out.append("[]");
        return ;
    }
    out.append("[\n");
    let ghost base = out@;
    let mut i: usize = 0;
    proof {
        assert(v.skip(0) =~= v);
    }
    while i < n
        invariant
            0 <= i <= n,
            n == v.len(),
            v == items@.map_values(|s: String| s@),
            out@ + string_array_lines(v.skip(i as int)) == base + string_array_lines(v),
        decreases n - i,
    {
        proof {
            assert(v.skip(i as int).first() == v[i as int]);
            assert(v.skip(i as int).drop_first() =~= v.skip(i as int + 1));
        }
        out.append("      ");
        append_json_string(out, items[i].as_str());
        if i == n - 1 {
            out.append("\n");
        } else {
            out.append(",\n");
        }
        proof {
            assert(out@ + string_array_lines(v.skip(i as int + 1)) =~= base + string_array_lines(
                v,
            ));
        }
        i += 1;
    }
    out.append("    ]");
    proof {
        assert(v.skip(n as int) =~= Seq::<Seq<char>>::empty());
        assert(out@ =~= old(out)@ + json_string_array(v));
    }
}

fn append_command_json(out: &mut String, c: &CompileCommand)
    ensures
        final(out)@ == old(out)@ + command_json(c@),
{
    out.append("  {\n    \"name\": ");
    append_json_string(out, c.name.as_str());
    out.append(",\n    \"files\": ");
    append_string_array(out, &c.files);
    out.append(",\n    \"arguments\": ");
    append_string_array(out, &c.arguments);
    out.append(",\n    \"index_store_path\": ");
    match &c.index_store_path {
        Some(p) => append_json_string(out, p.as_str()),
        None => out.append("null"),
    }
    out.append("\n  }");
    proof {
        assert(out@ =~= old(out)@ + command_json(c@));
    }
}

impl CompileCommands {
    /// Renders the database as the `.compile` artifact text, exactly as
    /// `compile_db_json` says: a pretty-printed JSON array, identical on
    /// every run over the same database.
    pub fn to_json(&self) -> (r: String)
        ensures
            r@ == compile_db_json(self@),
    {
        let mut out = String::new();
        let n = self.0.len();
        if n == 0 {
            out.append("[]");
            proof {
                assert(out@ =~= compile_db_json(self@));
            }
            return out;
        }
        out.append("[\n");
        let ghost base = out@;
        let ghost v = self@;
        let mut i: usize = 0;
        proof {
            assert(v.skip(0) =~= v);
        }
        while i < n
            invariant
                0 <= i <= n,
                n == v.len(),
                v == self@,
                out@ + command_lines(v.skip(i as int)) == base + command_lines(v),
            decreases n - i,
        {
            proof {
                assert(v.skip(i as int).first() == v[i as int]);
                assert(v.skip(i as int).drop_first() =~= v.skip(i as int + 1));
            }
            append_command_json(&mut out, &self.0[i]);
            if i == n - 1 {
                out.append("\n");
            } else {
                out.append(",\n");
            }
            proof {
                assert(out@ + command_lines(v.skip(i as int + 1)) =~= base + command_lines(v));
            }
            i += 1;
        }
        out.append("]");
        proof {
            assert(v.skip(n as int) =~= Seq::<CommandModel>::empty());
            assert(out@ =~= compile_db_json(self@));
        }
        out
    }
}

/// A transcript with no recognized compile block parses to the empty
/// database.
pub proof fn lemma_parse_no_blocks(lines: Seq<Seq<char>>, i: int)
    requires
        0 <= i <= lines.len(),
        forall|k: int| 0 <= k < lines.len() ==> !is_compile_separator(lines[k]),
    ensures
        parse_from(lines, i).len() == 0,
    decreases lines.len() - i,
{
    if i < lines.len() {
        lemma_parse_no_blocks(lines, i + 1);
    }
}

/// Parsing is deterministic: the database is a function of the lines alone,
/// so two parses of the same transcript agree.
pub proof fn lemma_parse_deterministic(
    lines: Seq<Seq<char>>,
    r1: Seq<CommandModel>,
    r2: Seq<CommandModel>,
)
    requires
        r1 == parse_from(lines, 0),
        r2 == parse_from(lines, 0),
    ensures
        r1 == r2,
{
}

} // verus!
