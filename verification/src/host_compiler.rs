//! What is said to the host's C compiler, and what is made of its answer.

use crate::diagnostic::{Diagnostic, compiler_error};
use crate::text::same_text;
use vstd::prelude::*;
use vstd::string::*;
use vstd::utf8::*;

verus! {

/// How a compiler wants its arguments.
#[derive(Clone, Copy, Debug, Eq, PartialEq, Structural)]
pub enum Flavor {
    Msvc,
    GnuLike,
}

/// A capital ASCII letter made small; any other character unchanged.
pub open spec fn lower(c: char) -> char {
    if 'A' <= c <= 'Z' {
        (c as u32 + 32) as char
    } else {
        c
    }
}

/// Every capital ASCII letter made small.
pub open spec fn lowered(text: Seq<char>) -> Seq<char> {
    Seq::new(text.len(), |i: int| lower(text[i]))
}

/// Where the last dot stands, before `end`.
pub open spec fn last_dot(name: Seq<char>, end: int) -> Option<int>
    decreases end,
{
    if end <= 0 {
        None
    } else if name[end - 1] == '.' {
        Some(end - 1)
    } else {
        last_dot(name, end - 1)
    }
}

/// A file name without its extension. A name has none where its only dot starts it, and `..` is
/// no file name.
pub open spec fn stem(name: Seq<char>) -> Seq<char> {
    match last_dot(name, name.len() as int) {
        Some(at) => if at == 0 || name == seq!['.', '.'] {
            name
        } else {
            name.take(at)
        },
        None => name,
    }
}

pub open spec fn flavor_of(name: Seq<char>) -> Flavor {
    if lowered(stem(name)) == "cl"@ {
        Flavor::Msvc
    } else {
        Flavor::GnuLike
    }
}

fn characters(text: &str) -> (result: Vec<char>)
    ensures
        result@ == text@,
{
    let mut all: Vec<char> = Vec::new();
    for c in it: text.chars()
        invariant
            it.seq() == text@,
            all@ == text@.take(it.index() as int),
    {
        all.push(c);
        assert(all@ =~= text@.take(it.index() + 1));
    }
    assert(text@.take(text@.len() as int) =~= text@);
    all
}

fn to_lower(c: char) -> (result: char)
    ensures
        result == lower(c),
{
    if 'A' <= c && c <= 'Z' {
        let code = c as u8;
        assert(65 <= code <= 90);
        (code + 32) as char
    } else {
        c
    }
}

/// How many characters the stem of a file name has.
fn stem_length(name: &Vec<char>) -> (result: usize)
    ensures
        result <= name@.len(),
        stem(name@) == name@.take(result as int),
{
    let mut end: usize = name.len();
    while end > 0 && name[end - 1] != '.'
        invariant
            end <= name@.len(),
            last_dot(name@, name@.len() as int) == last_dot(name@, end as int),
        decreases end,
    {
        end = end - 1;
    }
    let dots = name.len() == 2 && name[0] == '.' && name[1] == '.';
    let length: usize = if end <= 1 || dots {
        name.len()
    } else {
        end - 1
    };
    assert(dots == (name@ =~= seq!['.', '.']));
    assert(stem(name@) =~= name@.take(length as int));
    length
}

/// The flavor of a compiler with the given file name.
pub fn compiler_flavor(name: &str) -> (result: Flavor)
    ensures
        result == flavor_of(name@),
{
    let all = characters(name);
    let length: usize = stem_length(&all);
    let mut text = String::new();
    let mut index: usize = 0;
    while index < length
        invariant
            all@ == name@,
            length <= all@.len(),
            index <= length,
            text@ == lowered(name@.take(index as int)),
        decreases length - index,
    {
        text.push(to_lower(all[index]));
        index = index + 1;
        assert(text@ =~= lowered(name@.take(index as int)));
    }
    if same_text(text.as_str(), "cl") {
        Flavor::Msvc
    } else {
        Flavor::GnuLike
    }
}

/// The name of the object file that goes with a file of the given name.
pub fn object_name(name: &str) -> (result: String)
    ensures
        result@ == stem(name@) + ".obj"@,
{
    let all = characters(name);
    let length: usize = stem_length(&all);
    let mut text = String::new();
    let mut index: usize = 0;
    while index < length
        invariant
            all@ == name@,
            length <= all@.len(),
            index <= length,
            text@ == name@.take(index as int),
        decreases length - index,
    {
        text.push(all[index]);
        index = index + 1;
        assert(text@ =~= name@.take(index as int));
    }
    text.append(".obj");
    text
}

/// The contents of a list of strings.
pub open spec fn texts(all: Seq<String>) -> Seq<Seq<char>> {
    all.map_values(|text: String| text@)
}

/// The arguments of a compiler that makes `output` out of `input`.
pub open spec fn arguments_for(
    flavor: Flavor,
    input: Seq<char>,
    output: Seq<char>,
    object: Seq<char>,
) -> Seq<Seq<char>> {
    match flavor {
        Flavor::Msvc => seq!["/nologo"@, "/TC"@, "/W4"@, input, "/Fe:"@ + output, "/Fo:"@ + object],
        Flavor::GnuLike => seq!["-std=c11"@, "-Wall"@, "-Wextra"@, "-pedantic"@, input, "-o"@, output],
    }
}

/// The arguments of a compiler that makes `output` out of `input`. One of the MSVC flavor leaves
/// its object file in `object`.
pub fn compiler_arguments(flavor: Flavor, input: &str, output: &str, object: &str) -> (result: Vec<String>)
    ensures
        texts(result@) == arguments_for(flavor, input@, output@, object@),
{
    let mut arguments: Vec<String> = Vec::new();
    match flavor {
        Flavor::Msvc => {
            arguments.push("/nologo".to_owned());
            arguments.push("/TC".to_owned());
            arguments.push("/W4".to_owned());
            arguments.push(input.to_owned());
            let mut executable = "/Fe:".to_owned();
            executable.append(output);
            arguments.push(executable);
            let mut intermediate = "/Fo:".to_owned();
            intermediate.append(object);
            arguments.push(intermediate);
        },
        Flavor::GnuLike => {
            arguments.push("-std=c11".to_owned());
            arguments.push("-Wall".to_owned());
            arguments.push("-Wextra".to_owned());
            arguments.push("-pedantic".to_owned());
            arguments.push(input.to_owned());
            arguments.push("-o".to_owned());
            arguments.push(output.to_owned());
        },
    }
    assert(texts(arguments@) =~= arguments_for(flavor, input@, output@, object@));
    arguments
}

/// The compilers that are looked for, in order.
pub open spec fn candidates(windows: bool) -> Seq<Seq<char>> {
    if windows {
        seq!["cl"@, "clang"@, "gcc"@, "cc"@]
    } else {
        seq!["cc"@, "clang"@, "gcc"@]
    }
}

pub fn compiler_candidates(windows: bool) -> (result: Vec<String>)
    ensures
        texts(result@) == candidates(windows),
{
    let mut names: Vec<String> = Vec::new();
    if windows {
        names.push("cl".to_owned());
        names.push("clang".to_owned());
        names.push("gcc".to_owned());
        names.push("cc".to_owned());
    } else {
        names.push("cc".to_owned());
        names.push("clang".to_owned());
        names.push("gcc".to_owned());
    }
    assert(texts(names@) =~= candidates(windows));
    names
}

/// Where the next semicolon stands, or the end.
pub open spec fn piece_end(text: Seq<char>, from: int) -> int
    decreases text.len() - from,
{
    if from >= text.len() || text[from] == ';' {
        from
    } else {
        piece_end(text, from + 1)
    }
}

pub proof fn lemma_piece_end(text: Seq<char>, from: int)
    requires
        0 <= from <= text.len(),
    ensures
        from <= piece_end(text, from) <= text.len(),
    decreases text.len() - from,
{
    if from < text.len() && text[from] != ';' {
        lemma_piece_end(text, from + 1);
    }
}

/// The program with each of the extensions from `from` on, which semicolons separate, in small
/// letters.
pub open spec fn extended(program: Seq<char>, extensions: Seq<char>, from: int) -> Seq<Seq<char>>
    decreases extensions.len() + 1 - from,
{
    if from < 0 || from > extensions.len() {
        seq![]
    } else {
        let end = piece_end(extensions, from);
        proof {
            lemma_piece_end(extensions, from);
        }
        seq![program + lowered(extensions.subrange(from, end))] + extended(program, extensions, end + 1)
    }
}

/// The names under which a program is looked for in a directory.
pub open spec fn names_of(program: Seq<char>, bare: bool, extensions: Seq<char>) -> Seq<Seq<char>> {
    if bare {
        seq![program]
    } else {
        extended(program, extensions, 0)
    }
}

/// The names under which a program is looked for in a directory: its own name where the host adds
/// no extensions to it, else that name with each of the extensions.
pub fn executable_names(program: &str, bare: bool, extensions: &str) -> (result: Vec<String>)
    ensures
        texts(result@) == names_of(program@, bare, extensions@),
{
    let mut names: Vec<String> = Vec::new();
    if bare {
        names.push(program.to_owned());
        assert(texts(names@) =~= seq![program@]);
        return names;
    }
    let all = characters(extensions);
    let mut name = program.to_owned();
    let mut from: usize = 0;
    let mut at: usize = 0;
    assert(texts(names@) + extended(program@, extensions@, 0) =~= extended(program@, extensions@, 0));
    assert(name@ =~= program@ + lowered(extensions@.subrange(0, 0)));
    while at < all.len()
        invariant
            all@ == extensions@,
            from <= at <= all@.len(),
            piece_end(extensions@, from as int) == piece_end(extensions@, at as int),
            name@ == program@ + lowered(extensions@.subrange(from as int, at as int)),
            texts(names@) + extended(program@, extensions@, from as int) == extended(program@, extensions@, 0),
        decreases all@.len() - at,
    {
        if all[at] == ';' {
            let ghost before = texts(names@);
            let mut next = program.to_owned();
            std::mem::swap(&mut next, &mut name);
            let ghost finished = next@;
            names.push(next);
            proof {
                assert(texts(names@) =~= before.push(finished));
                assert(extended(program@, extensions@, from as int) =~= seq![finished] + extended(
                    program@,
                    extensions@,
                    at + 1,
                ));
                assert(texts(names@) + extended(program@, extensions@, at + 1) =~= before + extended(
                    program@,
                    extensions@,
                    from as int,
                ));
            }
            at = at + 1;
            from = at;
            assert(name@ =~= program@ + lowered(extensions@.subrange(from as int, at as int)));
        } else {
            name.push(to_lower(all[at]));
            at = at + 1;
            assert(name@ =~= program@ + lowered(extensions@.subrange(from as int, at as int)));
        }
    }
    let ghost before = texts(names@);
    let ghost finished = name@;
    names.push(name);
    proof {
        assert(texts(names@) =~= before.push(finished));
        assert(extended(program@, extensions@, at + 1) =~= seq![]);
        assert(extended(program@, extensions@, from as int) =~= seq![finished]);
        assert(before.push(finished) =~= before + extended(program@, extensions@, from as int));
    }
    names
}

/// What `String::from_utf8_lossy` makes of bytes.
pub uninterp spec fn utf8_lossy(bytes: Seq<u8>) -> Seq<char>;

/// `String::from_utf8_lossy`: the text that the bytes encode. Its result depends on the bytes
/// alone; where they are valid UTF-8 it is their decoding. What stands in place of sequences that
/// are not valid is left unsaid.
#[verifier::external_body]
fn from_utf8_lossy(bytes: &[u8]) -> (result: String)
    ensures
        result@ == utf8_lossy(bytes@),
        valid_utf8(bytes@) ==> result@ == decode_utf8(bytes@),
{
    String::from_utf8_lossy(bytes).into_owned()
}

/// The characters with the Unicode property `White_Space`.
pub open spec fn white_space(c: char) -> bool {
    let code = c as u32;
    ||| 0x09 <= code <= 0x0d
    ||| code == 0x20
    ||| code == 0x85
    ||| code == 0xa0
    ||| code == 0x1680
    ||| 0x2000 <= code <= 0x200a
    ||| code == 0x2028
    ||| code == 0x2029
    ||| code == 0x202f
    ||| code == 0x205f
    ||| code == 0x3000
}

/// A text without the white space at its end.
pub open spec fn trimmed(text: Seq<char>) -> Seq<char>
    decreases text.len(),
{
    if text.len() > 0 && white_space(text.last()) {
        trimmed(text.drop_last())
    } else {
        text
    }
}

fn is_white_space(c: char) -> (result: bool)
    ensures
        result == white_space(c),
{
    let code = c as u32;
    (0x09 <= code && code <= 0x0d) || code == 0x20 || code == 0x85 || code == 0xa0 || code == 0x1680 || (0x2000 <= code
        && code <= 0x200a) || code == 0x2028 || code == 0x2029 || code == 0x202f || code == 0x205f || code == 0x3000
}

/// Appends a text without the white space at its end.
fn append_trimmed(message: &mut String, text: &str)
    ensures
        final(message)@ == old(message)@ + trimmed(text@),
{
    let all = characters(text);
    let mut end: usize = all.len();
    assert(text@.take(end as int) =~= text@);
    while end > 0 && is_white_space(all[end - 1])
        invariant
            all@ == text@,
            end <= all@.len(),
            trimmed(text@) == trimmed(text@.take(end as int)),
        decreases end,
    {
        assert(text@.take(end as int).drop_last() =~= text@.take(end - 1));
        end = end - 1;
    }
    assert(trimmed(text@) == text@.take(end as int));
    let ghost start = message@;
    let mut index: usize = 0;
    while index < end
        invariant
            all@ == text@,
            index <= end <= all@.len(),
            message@ == start + text@.take(index as int),
        decreases end - index,
    {
        message.push(all[index]);
        index = index + 1;
        assert(message@ =~= start + text@.take(index as int));
    }
}

/// What is reported of one output of a compiler.
pub open spec fn output_text(label: Seq<char>, bytes: Seq<u8>) -> Seq<char> {
    if bytes.len() == 0 {
        seq![]
    } else {
        "\n"@ + label + ":\n"@ + trimmed(utf8_lossy(bytes))
    }
}

/// Appends one output of a compiler, under its label, where there is any.
pub fn append_output(message: &mut String, label: &str, bytes: &[u8])
    ensures
        final(message)@ == old(message)@ + output_text(label@, bytes@),
{
    if bytes.len() > 0 {
        let text = from_utf8_lossy(bytes);
        append_labelled(message, label, text.as_str());
    } else {
        assert(message@ =~= old(message)@ + output_text(label@, bytes@));
    }
}

/// Appends a text, under its label, without the white space at its end.
pub fn append_labelled(message: &mut String, label: &str, text: &str)
    ensures
        final(message)@ == old(message)@ + ("\n"@ + label@ + ":\n"@ + trimmed(text@)),
{
    message.append("\n");
    message.append(label);
    message.append(":\n");
    append_trimmed(message, text);
    assert(message@ =~= old(message)@ + ("\n"@ + label@ + ":\n"@ + trimmed(text@)));
}

/// The error of a compiler that was asked for and is not there.
pub fn missing_configured(configured: &str) -> (result: Diagnostic)
    ensures
        result@ == compiler_error("configured C compiler '"@ + configured@ + "' was not found"@),
{
    let mut message = "configured C compiler '".to_owned();
    message.append(configured);
    message.append("' was not found");
    Diagnostic::compiler(message)
}

/// The error of a host without any of the compilers that are looked for.
pub fn missing_compiler() -> (result: Diagnostic)
    ensures
        result@ == compiler_error(
            "no supported C compiler found; install cl, clang, gcc, or cc, or set SAO2_CC"@,
        ),
{
    Diagnostic::compiler("no supported C compiler found; install cl, clang, gcc, or cc, or set SAO2_CC")
}

/// The error of a compiler that could not be started.
pub fn start_failure(compiler: &str, error: &str) -> (result: Diagnostic)
    ensures
        result@ == compiler_error("failed to start C compiler '"@ + compiler@ + "': "@ + error@),
{
    let mut message = "failed to start C compiler '".to_owned();
    message.append(compiler);
    message.append("': ");
    message.append(error);
    Diagnostic::compiler(message)
}

/// The error of an old executable that could not be removed.
pub fn replacement_failure(executable: &str, error: &str) -> (result: Diagnostic)
    ensures
        result@ == compiler_error("cannot replace executable '"@ + executable@ + "': "@ + error@),
{
    let mut message = "cannot replace executable '".to_owned();
    message.append(executable);
    message.append("': ");
    message.append(error);
    Diagnostic::compiler(message)
}

/// What is reported of a finished compiler, where something went wrong.
pub open spec fn verdict(
    compiler: Seq<char>,
    executable: Seq<char>,
    succeeded: bool,
    status: Seq<char>,
    stdout: Seq<u8>,
    stderr: Seq<u8>,
    created: bool,
) -> Option<Seq<char>> {
    if !succeeded {
        Some(
            "C compiler '"@ + compiler + "' failed with status "@ + status + (output_text("stdout"@, stdout)
                + output_text("stderr"@, stderr)),
        )
    } else if !created {
        Some("C compiler '"@ + compiler + "' succeeded but did not create '"@ + executable + "'"@)
    } else {
        None
    }
}

/// Judges a finished compiler: it must have succeeded and made its executable.
pub fn judge(
    compiler: &str,
    executable: &str,
    succeeded: bool,
    status: &str,
    stdout: &[u8],
    stderr: &[u8],
    created: bool,
) -> (result: Result<(), Diagnostic>)
    ensures
        match verdict(compiler@, executable@, succeeded, status@, stdout@, stderr@, created) {
            Some(message) => result is Err && result->Err_0@ == compiler_error(message),
            None => result is Ok,
        },
{
    if !succeeded {
        let mut details = String::new();
        append_output(&mut details, "stdout", stdout);
        append_output(&mut details, "stderr", stderr);
        assert(details@ =~= output_text("stdout"@, stdout@) + output_text("stderr"@, stderr@));
        let mut message = "C compiler '".to_owned();
        message.append(compiler);
        message.append("' failed with status ");
        message.append(status);
        message.append(details.as_str());
        return Err(Diagnostic::compiler(message));
    }
    if !created {
        let mut message = "C compiler '".to_owned();
        message.append(compiler);
        message.append("' succeeded but did not create '");
        message.append(executable);
        message.append("'");
        return Err(Diagnostic::compiler(message));
    }
    Ok(())
}

} // verus!
