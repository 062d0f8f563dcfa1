//! What the command line asks for, and what the commands say.
use crate::comptime;
use crate::formatter::{format_source, formatted};
use crate::modules::ProjectError;
use crate::pipeline::FrontendError;
use crate::source::{line_starts, position_in, SourceMap, SourcePosition};
use crate::text::{
    clone_texts, decimal, decimal_text, joined, parse_unsigned, text_is, texts, unsigned_value,
};
use vstd::prelude::*;

verus! {

/// What the arguments of a build ask for.
#[derive(Debug, PartialEq)]
pub struct BuildOptions {
    pub output: Option<String>,
    pub library_paths: Vec<String>,
    pub libraries: Vec<String>,
    pub objects: Vec<String>,
    pub target: Option<String>,
    pub linker: Option<String>,
    pub link_args: Vec<String>,
    pub depfile: Option<String>,
    pub opt_level: u8,
    pub emit_object: bool,
    pub emit_ir: bool,
    pub emit_assembly: bool,
    pub emit_executable: bool,
    pub debug: bool,
}

/// What a `BuildOptions` holds.
pub ghost struct BuildOptionsView {
    pub output: Option<Seq<char>>,
    pub library_paths: Seq<Seq<char>>,
    pub libraries: Seq<Seq<char>>,
    pub objects: Seq<Seq<char>>,
    pub target: Option<Seq<char>>,
    pub linker: Option<Seq<char>>,
    pub link_args: Seq<Seq<char>>,
    pub depfile: Option<Seq<char>>,
    pub opt_level: u8,
    pub emit_object: bool,
    pub emit_ir: bool,
    pub emit_assembly: bool,
    pub emit_executable: bool,
    pub debug: bool,
}

impl BuildOptions {
    pub open spec fn view(&self) -> BuildOptionsView
        decreases self,
    {
        BuildOptionsView {
            output: match self.output { Some(x) => Some(x@), None => None },
            library_paths: texts(self.library_paths@),
            libraries: texts(self.libraries@),
            objects: texts(self.objects@),
            target: match self.target { Some(x) => Some(x@), None => None },
            linker: match self.linker { Some(x) => Some(x@), None => None },
            link_args: texts(self.link_args@),
            depfile: match self.depfile { Some(x) => Some(x@), None => None },
            opt_level: self.opt_level,
            emit_object: self.emit_object,
            emit_ir: self.emit_ir,
            emit_assembly: self.emit_assembly,
            emit_executable: self.emit_executable,
            debug: self.debug,
        }
    }
}

impl Clone for BuildOptions {
    fn clone(&self) -> (r: Self)
        ensures
            r@ == self@,
        decreases self,
    {
        BuildOptions {
            output: match &self.output { Some(x) => Some(x.clone()), None => None },
            library_paths: clone_texts(&self.library_paths),
            libraries: clone_texts(&self.libraries),
            objects: clone_texts(&self.objects),
            target: match &self.target { Some(x) => Some(x.clone()), None => None },
            linker: match &self.linker { Some(x) => Some(x.clone()), None => None },
            link_args: clone_texts(&self.link_args),
            depfile: match &self.depfile { Some(x) => Some(x.clone()), None => None },
            opt_level: self.opt_level,
            emit_object: self.emit_object,
            emit_ir: self.emit_ir,
            emit_assembly: self.emit_assembly,
            emit_executable: self.emit_executable,
            debug: self.debug,
        }
    }
}

impl BuildOptionsView {
    /// How many kinds of output are asked for.
    pub open spec fn artifacts(self) -> int {
        (if self.emit_ir {
            1int
        } else {
            0int
        }) + (if self.emit_assembly {
            1int
        } else {
            0int
        }) + (if self.emit_object {
            1int
        } else {
            0int
        }) + (if self.emit_executable {
            1int
        } else {
            0int
        })
    }
}

pub open spec fn no_options() -> BuildOptionsView {
    BuildOptionsView {
        output: None,
        library_paths: Seq::empty(),
        libraries: Seq::empty(),
        objects: Seq::empty(),
        target: None,
        linker: None,
        link_args: Seq::empty(),
        depfile: None,
        opt_level: 0,
        emit_object: false,
        emit_ir: false,
        emit_assembly: false,
        emit_executable: false,
        debug: false,
    }
}

/// Whether a flag has a value behind it.
pub open spec fn takes_value(flag: Seq<char>) -> bool {
    flag == "-o"@ || flag == "--output"@ || flag == "-I"@ || flag == "--module-root"@ || flag
        == "-L"@ || flag == "-l"@ || flag == "--library"@ || flag == "--object"@ || flag
        == "--target"@ || flag == "--linker"@ || flag == "--link-arg"@ || flag == "--depfile"@
        || flag == "-O"@ || flag == "--opt-level"@
}

pub open spec fn level_message() -> Seq<char> {
    "optimization level must be 0, 1, 2, or 3"@
}

/// The options with a flag that has a value.
pub open spec fn with_value(out: BuildOptionsView, flag: Seq<char>, value: Seq<char>) -> Result<
    BuildOptionsView,
    Seq<char>,
> {
    if flag == "-o"@ || flag == "--output"@ {
        Ok(BuildOptionsView { output: Some(value), ..out })
    } else if flag == "-I"@ || flag == "--module-root"@ {
        Ok(out)
    } else if flag == "-L"@ {
        Ok(BuildOptionsView { library_paths: out.library_paths.push(value), ..out })
    } else if flag == "-l"@ || flag == "--library"@ {
        Ok(BuildOptionsView { libraries: out.libraries.push(value), ..out })
    } else if flag == "--object"@ {
        Ok(BuildOptionsView { objects: out.objects.push(value), ..out })
    } else if flag == "--target"@ {
        Ok(BuildOptionsView { target: Some(value), ..out })
    } else if flag == "--linker"@ {
        Ok(BuildOptionsView { linker: Some(value), ..out })
    } else if flag == "--link-arg"@ {
        Ok(BuildOptionsView { link_args: out.link_args.push(value), ..out })
    } else if flag == "--depfile"@ {
        Ok(BuildOptionsView { depfile: Some(value), ..out })
    } else {
        match unsigned_value(value) {
            Some(n) => if n <= 3 {
                Ok(BuildOptionsView { opt_level: n as u8, ..out })
            } else {
                Err(level_message())
            },
            None => Err(level_message()),
        }
    }
}

/// The options with a flag that stands alone.
pub open spec fn with_flag(out: BuildOptionsView, flag: Seq<char>) -> Result<
    BuildOptionsView,
    Seq<char>,
> {
    if flag == "-g"@ || flag == "--debug"@ {
        Ok(BuildOptionsView { debug: true, ..out })
    } else if flag == "-O0"@ {
        Ok(BuildOptionsView { opt_level: 0, ..out })
    } else if flag == "-O1"@ {
        Ok(BuildOptionsView { opt_level: 1, ..out })
    } else if flag == "-O2"@ {
        Ok(BuildOptionsView { opt_level: 2, ..out })
    } else if flag == "-O3"@ {
        Ok(BuildOptionsView { opt_level: 3, ..out })
    } else if flag == "--emit-object"@ || flag == "--emit-obj"@ || flag == "--object-only"@ {
        Ok(BuildOptionsView { emit_object: true, ..out })
    } else if flag == "--emit-ir"@ {
        Ok(BuildOptionsView { emit_ir: true, ..out })
    } else if flag == "--emit-asm"@ {
        Ok(BuildOptionsView { emit_assembly: true, ..out })
    } else if flag == "--emit-exe"@ {
        Ok(BuildOptionsView { emit_executable: true, ..out })
    } else {
        Err("unknown build argument `"@ + flag + "`"@)
    }
}

/// The options after the arguments from `i` on.
pub open spec fn options_from(arguments: Seq<Seq<char>>, i: int, out: BuildOptionsView) -> Result<
    BuildOptionsView,
    Seq<char>,
>
    decreases arguments.len() - i,
{
    if i < 0 || i >= arguments.len() {
        Ok(out)
    } else if takes_value(arguments[i]) {
        if i + 1 >= arguments.len() {
            Err("missing value after `"@ + arguments[i] + "`"@)
        } else {
            match with_value(out, arguments[i], arguments[i + 1]) {
                Ok(more) => options_from(arguments, i + 2, more),
                Err(message) => Err(message),
            }
        }
    } else {
        match with_flag(out, arguments[i]) {
            Ok(more) => options_from(arguments, i + 1, more),
            Err(message) => Err(message),
        }
    }
}

/// What the arguments of a build ask for: one kind of output at most.
pub open spec fn build_options(arguments: Seq<Seq<char>>) -> Result<BuildOptionsView, Seq<char>> {
    match options_from(arguments, 0, no_options()) {
        Err(message) => Err(message),
        Ok(options) => if options.artifacts() > 1 {
            Err("artifact emission options are mutually exclusive"@)
        } else {
            Ok(options)
        },
    }
}

fn flag_takes_value(flag: &String) -> (r: bool)
    ensures
        r == takes_value(flag@),
{
    text_is(flag, "-o") || text_is(flag, "--output") || text_is(flag, "-I") || text_is(
        flag,
        "--module-root",
    ) || text_is(flag, "-L") || text_is(flag, "-l") || text_is(flag, "--library") || text_is(
        flag,
        "--object",
    ) || text_is(flag, "--target") || text_is(flag, "--linker") || text_is(flag, "--link-arg")
        || text_is(flag, "--depfile") || text_is(flag, "-O") || text_is(flag, "--opt-level")
}

proof fn lemma_texts_push(s: Seq<String>, text: String)
    ensures
        texts(s.push(text)) == texts(s).push(text@),
{
    assert(texts(s.push(text)) =~= texts(s).push(text@));
}

impl BuildOptions {
    fn none() -> (r: Self)
        ensures
            r@ == no_options(),
    {
        let r: BuildOptions = BuildOptions {
            output: None,
            library_paths: Vec::new(),
            libraries: Vec::new(),
            objects: Vec::new(),
            target: None,
            linker: None,
            link_args: Vec::new(),
            depfile: None,
            opt_level: 0,
            emit_object: false,
            emit_ir: false,
            emit_assembly: false,
            emit_executable: false,
            debug: false,
        };
        assert(texts(r.library_paths@) =~= Seq::empty());
        assert(texts(r.libraries@) =~= Seq::empty());
        assert(texts(r.objects@) =~= Seq::empty());
        assert(texts(r.link_args@) =~= Seq::empty());
        r
    }

    fn take_value(self, flag: &String, value: &String) -> (r: Result<Self, String>)
        ensures
            match with_value(self@, flag@, value@) {
                Ok(options) => r matches Ok(out) && out@ == options,
                Err(message) => r matches Err(text) && text@ == message,
            },
    {
        let mut out: BuildOptions = self;
        let text: String = value.clone();
        if text_is(flag, "-o") || text_is(flag, "--output") {
            out.output = Some(text);
        } else if text_is(flag, "-I") || text_is(flag, "--module-root") {
        } else if text_is(flag, "-L") {
            proof {
                lemma_texts_push(out.library_paths@, text);
            }
            out.library_paths.push(text);
        } else if text_is(flag, "-l") || text_is(flag, "--library") {
            proof {
                lemma_texts_push(out.libraries@, text);
            }
            out.libraries.push(text);
        } else if text_is(flag, "--object") {
            proof {
                lemma_texts_push(out.objects@, text);
            }
            out.objects.push(text);
        } else if text_is(flag, "--target") {
            out.target = Some(text);
        } else if text_is(flag, "--linker") {
            out.linker = Some(text);
        } else if text_is(flag, "--link-arg") {
            proof {
                lemma_texts_push(out.link_args@, text);
            }
            out.link_args.push(text);
        } else if text_is(flag, "--depfile") {
            out.depfile = Some(text);
        } else {
            match parse_unsigned(value) {
                Some(n) => {
                    if n > 3 {
                        return Err("optimization level must be 0, 1, 2, or 3".to_owned());
                    }
                    out.opt_level = n as u8;
                },
                None => {
                    return Err("optimization level must be 0, 1, 2, or 3".to_owned());
                },
            }
        }
        Ok(out)
    }

    fn take_flag(self, flag: &String) -> (r: Result<Self, String>)
        ensures
            match with_flag(self@, flag@) {
                Ok(options) => r matches Ok(out) && out@ == options,
                Err(message) => r matches Err(text) && text@ == message,
            },
    {
        let mut out: BuildOptions = self;
        if text_is(flag, "-g") || text_is(flag, "--debug") {
            out.debug = true;
        } else if text_is(flag, "-O0") {
            out.opt_level = 0;
        } else if text_is(flag, "-O1") {
            out.opt_level = 1;
        } else if text_is(flag, "-O2") {
            out.opt_level = 2;
        } else if text_is(flag, "-O3") {
            out.opt_level = 3;
        } else if text_is(flag, "--emit-object") || text_is(flag, "--emit-obj") || text_is(
            flag,
            "--object-only",
        ) {
            out.emit_object = true;
        } else if text_is(flag, "--emit-ir") {
            out.emit_ir = true;
        } else if text_is(flag, "--emit-asm") {
            out.emit_assembly = true;
        } else if text_is(flag, "--emit-exe") {
            out.emit_executable = true;
        } else {
            return Err(
                joined(joined("unknown build argument `".to_owned(), flag.as_str()), "`"),
            );
        }
        Ok(out)
    }

    /// What the arguments of a build ask for.
    pub fn parse(arguments: &Vec<String>) -> (r: Result<Self, String>)
        ensures
            match build_options(texts(arguments@)) {
                Ok(options) => r matches Ok(out) && out@ == options,
                Err(message) => r matches Err(text) && text@ == message,
            },
    {
        let ghost all = texts(arguments@);
        let mut out: BuildOptions = BuildOptions::none();
        let mut i: usize = 0;
        while i < arguments.len()
            invariant
                all == texts(arguments@),
                i <= arguments.len(),
                options_from(all, 0, no_options()) == options_from(all, i as int, out@),
            decreases arguments.len() - i,
        {
            assert(all[i as int] == arguments@[i as int]@);
            let flag: &String = &arguments[i];
            if flag_takes_value(flag) {
                if arguments.len() - i < 2 {
                    return Err(
                        joined(joined("missing value after `".to_owned(), flag.as_str()), "`"),
                    );
                }
                assert(all[i + 1] == arguments@[i + 1]@);
                out = out.take_value(flag, &arguments[i + 1])?;
                i += 2;
            } else {
                out = out.take_flag(flag)?;
                i += 1;
            }
        }
        let mut count: usize = 0;
        if out.emit_ir {
            count += 1;
        }
        if out.emit_assembly {
            count += 1;
        }
        if out.emit_object {
            count += 1;
        }
        if out.emit_executable {
            count += 1;
        }
        if count > 1 {
            return Err("artifact emission options are mutually exclusive".to_owned());
        }
        Ok(out)
    }

    /// The ending of the output's name where no name is given; none for an
    /// executable.
    pub fn default_ending(&self) -> (r: Option<&'static str>)
        ensures
            match r {
                Some(ending) => default_ending(self@) == Some(ending@),
                None => default_ending(self@) is None,
            },
    {
        if self.emit_ir {
            Some("ll")
        } else if self.emit_assembly {
            Some("s")
        } else if self.emit_object {
            Some("o")
        } else {
            None
        }
    }

    /// Whether the build is to end in an executable.
    pub fn links(&self) -> (r: bool)
        ensures
            r == (default_ending(self@) is None),
    {
        !self.emit_object && !self.emit_ir && !self.emit_assembly
    }

    /// The arguments that the linker gets.
    pub fn link_arguments(&self, object: &String, output: &String) -> (r: Vec<String>)
        ensures
            texts(r@) == linker_arguments(self@, object@, output@),
    {
        let mut out: Vec<String> = Vec::new();
        assert(texts(out@) =~= Seq::empty());
        match &self.target {
            Some(target) => {
                push_text(&mut out, joined("--target=".to_owned(), target.as_str()));
            },
            None => {},
        }
        push_text(&mut out, object.clone());
        push_texts(&mut out, &self.objects);
        push_paired(&mut out, "-L", &self.library_paths);
        push_paired(&mut out, "-l", &self.libraries);
        push_texts(&mut out, &self.link_args);
        push_text(&mut out, "-o".to_owned());
        push_text(&mut out, output.clone());
        out
    }
}

pub open spec fn default_ending(options: BuildOptionsView) -> Option<Seq<char>> {
    if options.emit_ir {
        Some("ll"@)
    } else if options.emit_assembly {
        Some("s"@)
    } else if options.emit_object {
        Some("o"@)
    } else {
        None
    }
}

/// The first `n` texts, each with the flag before it.
pub open spec fn paired(flag: Seq<char>, values: Seq<Seq<char>>, n: int) -> Seq<Seq<char>>
    decreases n,
{
    if n <= 0 || n > values.len() {
        Seq::empty()
    } else {
        paired(flag, values, n - 1).push(flag).push(values[n - 1])
    }
}

/// The arguments of the linker: the target, the object and the other objects,
/// where and which libraries are, what is handed on, and the output.
pub open spec fn linker_arguments(
    options: BuildOptionsView,
    object: Seq<char>,
    output: Seq<char>,
) -> Seq<Seq<char>> {
    let start: Seq<Seq<char>> = match options.target {
        Some(target) => seq!["--target="@ + target],
        None => Seq::empty(),
    };
    (start.push(object) + options.objects + paired(
        "-L"@,
        options.library_paths,
        options.library_paths.len() as int,
    ) + paired("-l"@, options.libraries, options.libraries.len() as int)
        + options.link_args).push("-o"@).push(output)
}

fn push_text(out: &mut Vec<String>, text: String)
    ensures
        texts(final(out)@) == texts(old(out)@).push(text@),
{
    proof {
        lemma_texts_push(out@, text);
    }
    out.push(text);
}

fn push_texts(out: &mut Vec<String>, more: &Vec<String>)
    ensures
        texts(final(out)@) == texts(old(out)@) + texts(more@),
{
    let ghost before = texts(out@);
    let ghost all = texts(more@);
    assert(before + all.take(0) =~= before);
    for i in 0..more.len()
        invariant
            all == texts(more@),
            texts(out@) == before + all.take(i as int),
    {
        assert(all[i as int] == more@[i as int]@);
        push_text(out, more[i].clone());
        assert(before + all.take(i + 1) =~= (before + all.take(i as int)).push(all[i as int]));
    }
    assert(all.take(all.len() as int) =~= all);
}

fn push_paired(out: &mut Vec<String>, flag: &str, values: &Vec<String>)
    ensures
        texts(final(out)@) == texts(old(out)@) + paired(
            flag@,
            texts(values@),
            values@.len() as int,
        ),
{
    let ghost before = texts(out@);
    let ghost all = texts(values@);
    assert(before + paired(flag@, all, 0) =~= before);
    for i in 0..values.len()
        invariant
            all == texts(values@),
            texts(out@) == before + paired(flag@, all, i as int),
    {
        assert(all[i as int] == values@[i as int]@);
        push_text(out, flag.to_owned());
        push_text(out, values[i].clone());
        assert(before + paired(flag@, all, i + 1) =~= (before + paired(flag@, all, i as int)).push(
            flag@,
        ).push(all[i as int]));
    }
}

// ---------------------------------------------------------------------------
// Commands
// ---------------------------------------------------------------------------

/// What a call of the program asks for.
#[derive(Debug, PartialEq)]
pub enum Invocation {
    Usage,
    Unknown { command: String },
    Format { arguments: Vec<String> },
    Lex { file: String },
    Parse { file: String },
    Check { file: String, arguments: Vec<String> },
    Ir { file: String, arguments: Vec<String> },
    Run { file: String, arguments: Vec<String> },
    Reflect { file: String, arguments: Vec<String> },
    Generated { file: String, arguments: Vec<String> },
    Build { file: String, arguments: Vec<String> },
}

pub ghost enum InvocationView {
    Usage,
    Unknown { command: Seq<char> },
    Format { arguments: Seq<Seq<char>> },
    Lex { file: Seq<char> },
    Parse { file: Seq<char> },
    Check { file: Seq<char>, arguments: Seq<Seq<char>> },
    Ir { file: Seq<char>, arguments: Seq<Seq<char>> },
    Run { file: Seq<char>, arguments: Seq<Seq<char>> },
    Reflect { file: Seq<char>, arguments: Seq<Seq<char>> },
    Generated { file: Seq<char>, arguments: Seq<Seq<char>> },
    Build { file: Seq<char>, arguments: Seq<Seq<char>> },
}

/// What a call with these words asks for. The first word names the program.
pub open spec fn invocation(words: Seq<Seq<char>>) -> InvocationView {
    if words.len() < 2 {
        InvocationView::Usage
    } else if words[1] == "fmt"@ {
        InvocationView::Format { arguments: words.skip(2) }
    } else if words.len() < 3 {
        InvocationView::Usage
    } else {
        let file = words[2];
        let arguments = words.skip(3);
        if words[1] == "lex"@ {
            if words.len() == 3 {
                InvocationView::Lex { file }
            } else {
                InvocationView::Usage
            }
        } else if words[1] == "parse"@ {
            if words.len() == 3 {
                InvocationView::Parse { file }
            } else {
                InvocationView::Usage
            }
        } else if words[1] == "check"@ {
            InvocationView::Check { file, arguments }
        } else if words[1] == "ir"@ {
            InvocationView::Ir { file, arguments }
        } else if words[1] == "run"@ || words[1] == "interpret"@ {
            InvocationView::Run { file, arguments }
        } else if words[1] == "reflect"@ {
            InvocationView::Reflect { file, arguments }
        } else if words[1] == "generated"@ {
            InvocationView::Generated { file, arguments }
        } else if words[1] == "build"@ || words[1] == "compile"@ {
            InvocationView::Build { file, arguments }
        } else {
            InvocationView::Unknown { command: words[1] }
        }
    }
}

fn texts_from(words: &Vec<String>, start: usize) -> (r: Vec<String>)
    requires
        start <= words.len(),
    ensures
        texts(r@) == texts(words@).skip(start as int),
{
    let ghost all = texts(words@);
    let mut out: Vec<String> = Vec::new();
    assert(texts(out@) =~= all.subrange(start as int, start as int));
    for i in start..words.len()
        invariant
            start <= words.len(),
            all == texts(words@),
            texts(out@) == all.subrange(start as int, i as int),
    {
        assert(all[i as int] == words@[i as int]@);
        push_text(&mut out, words[i].clone());
        assert(all.subrange(start as int, i + 1) =~= all.subrange(start as int, i as int).push(
            all[i as int],
        ));
    }
    assert(all.subrange(start as int, all.len() as int) =~= all.skip(start as int));
    out
}

impl Invocation {
    pub open spec fn view(&self) -> InvocationView {
        match self {
            Invocation::Usage => InvocationView::Usage,
            Invocation::Unknown { command } => InvocationView::Unknown { command: command@ },
            Invocation::Format { arguments } => InvocationView::Format {
                arguments: texts(arguments@),
            },
            Invocation::Lex { file } => InvocationView::Lex { file: file@ },
            Invocation::Parse { file } => InvocationView::Parse { file: file@ },
            Invocation::Check { file, arguments } => InvocationView::Check {
                file: file@,
                arguments: texts(arguments@),
            },
            Invocation::Ir { file, arguments } => InvocationView::Ir {
                file: file@,
                arguments: texts(arguments@),
            },
            Invocation::Run { file, arguments } => InvocationView::Run {
                file: file@,
                arguments: texts(arguments@),
            },
            Invocation::Reflect { file, arguments } => InvocationView::Reflect {
                file: file@,
                arguments: texts(arguments@),
            },
            Invocation::Generated { file, arguments } => InvocationView::Generated {
                file: file@,
                arguments: texts(arguments@),
            },
            Invocation::Build { file, arguments } => InvocationView::Build {
                file: file@,
                arguments: texts(arguments@),
            },
        }
    }

    /// What a call with these words asks for.
    pub fn parse(words: &Vec<String>) -> (r: Self)
        ensures
            r@ == invocation(texts(words@)),
    {
        if words.len() < 2 {
            return Invocation::Usage;
        }
        let command: &String = &words[1];
        if text_is(command, "fmt") {
            return Invocation::Format { arguments: texts_from(words, 2) };
        }
        if words.len() < 3 {
            return Invocation::Usage;
        }
        let file: String = words[2].clone();
        let arguments: Vec<String> = texts_from(words, 3);
        if text_is(command, "lex") {
            if words.len() == 3 {
                Invocation::Lex { file }
            } else {
                Invocation::Usage
            }
        } else if text_is(command, "parse") {
            if words.len() == 3 {
                Invocation::Parse { file }
            } else {
                Invocation::Usage
            }
        } else if text_is(command, "check") {
            Invocation::Check { file, arguments }
        } else if text_is(command, "ir") {
            Invocation::Ir { file, arguments }
        } else if text_is(command, "run") || text_is(command, "interpret") {
            Invocation::Run { file, arguments }
        } else if text_is(command, "reflect") {
            Invocation::Reflect { file, arguments }
        } else if text_is(command, "generated") {
            Invocation::Generated { file, arguments }
        } else if text_is(command, "build") || text_is(command, "compile") {
            Invocation::Build { file, arguments }
        } else {
            Invocation::Unknown { command: command.clone() }
        }
    }
}

/// What is to be reflected.
#[derive(Debug, PartialEq)]
pub enum ReflectRequest {
    Type { name: String },
    Function { name: String },
    UnknownKind,
}

impl ReflectRequest {
    /// Reads the arguments of `reflect`: a type's name, or `function` and a
    /// function's name.
    pub fn parse(arguments: &Vec<String>) -> (r: Result<Self, String>)
        ensures
            ({
                let all = texts(arguments@);
                if all.len() == 1 {
                    r matches Ok(ReflectRequest::Type { name }) && name@ == all[0]
                } else if all.len() == 2 && all[0] == "function"@ {
                    r matches Ok(ReflectRequest::Function { name }) && name@ == all[1]
                } else if all.len() == 2 {
                    r matches Ok(ReflectRequest::UnknownKind)
                } else {
                    r matches Err(message) && message@
                        == "usage: compiler reflect <file> <type> | compiler reflect <file> function <name>"@
                }
            }),
    {
        if arguments.len() == 1 {
            Ok(ReflectRequest::Type { name: arguments[0].clone() })
        } else if arguments.len() == 2 {
            if text_is(&arguments[0], "function") {
                Ok(ReflectRequest::Function { name: arguments[1].clone() })
            } else {
                Ok(ReflectRequest::UnknownKind)
            }
        } else {
            Err(
                "usage: compiler reflect <file> <type> | compiler reflect <file> function <name>".to_owned(),
            )
        }
    }
}

// ---------------------------------------------------------------------------
// Module roots
// ---------------------------------------------------------------------------

pub open spec fn names_root(flag: Seq<char>) -> bool {
    flag == "-I"@ || flag == "--module-root"@
}

/// The module roots that the arguments from `i` on name, after `before`.
pub open spec fn roots_from(arguments: Seq<Seq<char>>, i: int, before: Seq<Seq<char>>) -> Result<
    Seq<Seq<char>>,
    Seq<char>,
>
    decreases arguments.len() - i,
{
    if i < 0 || i >= arguments.len() {
        Ok(before)
    } else if names_root(arguments[i]) {
        if i + 1 >= arguments.len() {
            Err("missing module root"@)
        } else {
            roots_from(arguments, i + 2, before.push(arguments[i + 1]))
        }
    } else {
        roots_from(arguments, i + 1, before)
    }
}

/// The directories to look for modules in.
pub fn module_roots(arguments: &Vec<String>) -> (r: Result<Vec<String>, String>)
    ensures
        match roots_from(texts(arguments@), 0, Seq::empty()) {
            Ok(roots) => r matches Ok(out) && texts(out@) == roots,
            Err(message) => r matches Err(text) && text@ == message,
        },
{
    let ghost all = texts(arguments@);
    let mut out: Vec<String> = Vec::new();
    let mut i: usize = 0;
    assert(texts(out@) =~= Seq::empty());
    while i < arguments.len()
        invariant
            all == texts(arguments@),
            i <= arguments.len(),
            roots_from(all, 0, Seq::empty()) == roots_from(all, i as int, texts(out@)),
        decreases arguments.len() - i,
    {
        assert(all[i as int] == arguments@[i as int]@);
        if text_is(&arguments[i], "-I") || text_is(&arguments[i], "--module-root") {
            if arguments.len() - i < 2 {
                return Err("missing module root".to_owned());
            }
            assert(all[i + 1] == arguments@[i + 1]@);
            push_text(&mut out, arguments[i + 1].clone());
            i += 2;
        } else {
            i += 1;
        }
    }
    Ok(out)
}

// ---------------------------------------------------------------------------
// Messages
// ---------------------------------------------------------------------------

/// The line and column of a byte of a text.
pub open spec fn place_in(source: Seq<char>, offset: int) -> (int, int) {
    position_in(line_starts(vstd::utf8::encode_utf8(source)), offset)
}

pub open spec fn placed_message(
    message: Seq<char>,
    filename: Seq<char>,
    place: (int, int),
) -> Seq<char> {
    message + " at "@ + filename + ":"@ + decimal(place.0 as nat) + ":"@ + decimal(place.1 as nat)
}

/// A message with the place it is about.
fn with_place(message: String, filename: &String, source: &String, offset: usize) -> (r: String)
    requires
        offset < usize::MAX,
    ensures
        r@ == placed_message(message@, filename@, place_in(source@, offset as int)),
{
    let place: SourcePosition = SourceMap::new(source.as_str()).position(offset);
    let line: String = decimal_text(place.line as u128);
    let column: String = decimal_text(place.column as u128);
    let start: String = joined(joined(joined(message, " at "), filename.as_str()), ":");
    joined(joined(joined(start, line.as_str()), ":"), column.as_str())
}

/// What is said of an error in a source text. The text must be shorter than
/// the largest offset.
pub fn diagnostic(filename: &String, source: &String, error: &FrontendError) -> (r: String)
    requires
        error@.span().start < usize::MAX,
    ensures
        r@ == placed_message(
            "error: "@ + error@.message(),
            filename@,
            place_in(source@, error@.span().start as int),
        ),
{
    let what: String = error.to_string();
    with_place(joined("error: ".to_owned(), what.as_str()), filename, source, error.span().start)
}

/// What is said of files that make no project.
pub fn module_diagnostic(filename: &String, source: &String, error: &ProjectError) -> (r: String)
    requires
        error@.span.start < usize::MAX,
    ensures
        r@ == placed_message(
            "error: module error: "@ + error@.message,
            filename@,
            place_in(source@, error@.span.start as int),
        ),
{
    let start: String = joined("error: module error: ".to_owned(), error.message.as_str());
    with_place(start, filename, source, error.span.start)
}

/// What is said of an error at compile time: only the line is given.
pub fn comptime_diagnostic(filename: &String, source: &String, error: &comptime::Error) -> (r:
    String)
    requires
        error@.span().start < usize::MAX,
    ensures
        r@ == "comptime error: "@ + error@.text() + " at "@ + filename@ + ":"@ + decimal(
            place_in(source@, error@.span().start as int).0 as nat,
        ),
{
    let what: String = error.to_string();
    let place: SourcePosition = SourceMap::new(source.as_str()).position(error.span().start);
    let line: String = decimal_text(place.line as u128);
    let start: String = joined(
        joined(joined("comptime error: ".to_owned(), what.as_str()), " at "),
        filename.as_str(),
    );
    joined(joined(start, ":"), line.as_str())
}

/// The first `n` texts, each behind a space.
pub open spec fn spaced_out(list: Seq<Seq<char>>, n: int) -> Seq<char>
    decreases n,
{
    if n <= 0 || n > list.len() {
        Seq::empty()
    } else {
        spaced_out(list, n - 1) + " "@ + list[n - 1]
    }
}

/// What a dependency file holds: the output, and what it is made from.
pub fn dependency_text(output: &String, dependencies: &Vec<String>) -> (r: String)
    ensures
        r@ == output@ + ":"@ + spaced_out(texts(dependencies@), dependencies@.len() as int)
            + "\n"@,
{
    let ghost all = texts(dependencies@);
    let mut text: String = joined(output.clone(), ":");
    let ghost start = text@;
    assert(start + spaced_out(all, 0) =~= start);
    for i in 0..dependencies.len()
        invariant
            all == texts(dependencies@),
            text@ == start + spaced_out(all, i as int),
    {
        assert(all[i as int] == dependencies@[i as int]@);
        let ghost before = spaced_out(all, i as int);
        text = joined(joined(text, " "), dependencies[i].as_str());
        assert(start + before + " "@ + all[i as int] =~= start + (before + " "@ + all[i as int]));
    }
    joined(text, "\n")
}

// ---------------------------------------------------------------------------
// Formatting
// ---------------------------------------------------------------------------

/// Whether files are only looked at, and which files.
#[derive(Debug)]
pub struct FormatRequest {
    pub check: bool,
    pub files: Vec<String>,
}

/// The first `n` arguments that are no flag.
pub open spec fn files_among(arguments: Seq<Seq<char>>, n: int) -> Seq<Seq<char>>
    decreases n,
{
    if n <= 0 || n > arguments.len() {
        Seq::empty()
    } else {
        let before = files_among(arguments, n - 1);
        if arguments[n - 1] == "--check"@ {
            before
        } else {
            before.push(arguments[n - 1])
        }
    }
}

impl FormatRequest {
    pub fn parse(arguments: &Vec<String>) -> (r: Result<Self, String>)
        ensures
            ({
                let all = texts(arguments@);
                let files = files_among(all, all.len() as int);
                match r {
                    Ok(request) => files.len() > 0 && texts(request.files@) == files
                        && request.check == all.contains("--check"@),
                    Err(message) => files.len() == 0 && message@
                        == "usage: compiler fmt [--check] <files...>"@,
                }
            }),
    {
        let ghost all = texts(arguments@);
        let mut check: bool = false;
        let mut files: Vec<String> = Vec::new();
        assert(texts(files@) =~= Seq::empty());
        for i in 0..arguments.len()
            invariant
                all == texts(arguments@),
                texts(files@) == files_among(all, i as int),
                check == (exists|j: int| 0 <= j < i && #[trigger] all[j] == "--check"@),
        {
            assert(all[i as int] == arguments@[i as int]@);
            if text_is(&arguments[i], "--check") {
                check = true;
            } else {
                push_text(&mut files, arguments[i].clone());
            }
        }
        assert(check == all.contains("--check"@));
        if files.len() == 0 {
            return Err("usage: compiler fmt [--check] <files...>".to_owned());
        }
        Ok(FormatRequest { check, files })
    }
}

/// What is to be written to a file that is formatted: nothing where it is only
/// looked at, which fails if its text would change.
pub fn format_file(filename: &String, source: &String, check: bool) -> (r: Result<
    Option<String>,
    String,
>)
    ensures
        match formatted(source@) {
            Err(message) => r matches Err(text) && text@ == message,
            Ok(wanted) => if !check {
                r matches Ok(Some(text)) && text@ == wanted
            } else if wanted == source@ {
                r matches Ok(None)
            } else {
                r matches Err(text) && text@ == filename@ + " is not formatted"@
            },
        },
{
    let wanted: String = format_source(source.as_str())?;
    if check {
        if wanted != *source {
            return Err(joined(filename.clone(), " is not formatted"));
        }
        Ok(None)
    } else {
        Ok(Some(wanted))
    }
}

} // verus!
