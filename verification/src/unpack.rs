//! The external programs that extract RAR and 7z archives: which one is run,
//! with which arguments, and what its output means.

use vstd::prelude::*;
use vstd::string::StringExecFns;

use crate::error::{UnpackError, UnpackErrorView};
use crate::text::{contains_text, law_occurring_is_standing_between, occurs_in, texts};

verus! {

/// Result of an unpack operation.
#[derive(Debug)]
pub struct UnpackResult {
    /// Whether the archive was extracted.
    pub success: bool,
    /// The files that came out of it.
    pub files_extracted: Vec<String>,
    /// What the extractor wrote to its standard output.
    pub output: String,
    /// What the extractor wrote to its standard error.
    pub error_output: String,
}

// ---------------------------------------------------------------------------
// External programs
// ---------------------------------------------------------------------------

/// Finds a program that can extract RAR archives: the first of `unrar`,
/// `unrar-free` and `rar` that `which_exists` reports.
pub fn find_unrar<F: Fn(&str) -> bool>(which_exists: F) -> (found: Option<String>)
    requires
        forall|name: &str| call_requires(which_exists, (name,)),
    ensures
        match found {
            Some(name) => {
                ||| {
                    &&& name@ == "unrar"@
                    &&& call_ensures(which_exists, ("unrar",), true)
                }
                ||| {
                    &&& name@ == "unrar-free"@
                    &&& call_ensures(which_exists, ("unrar",), false)
                    &&& call_ensures(which_exists, ("unrar-free",), true)
                }
                ||| {
                    &&& name@ == "rar"@
                    &&& call_ensures(which_exists, ("unrar",), false)
                    &&& call_ensures(which_exists, ("unrar-free",), false)
                    &&& call_ensures(which_exists, ("rar",), true)
                }
            },
            None => {
                &&& call_ensures(which_exists, ("unrar",), false)
                &&& call_ensures(which_exists, ("unrar-free",), false)
                &&& call_ensures(which_exists, ("rar",), false)
            },
        },
{
    if which_exists("unrar") {
        Some("unrar".to_owned())
    } else if which_exists("unrar-free") {
        Some("unrar-free".to_owned())
    } else if which_exists("rar") {
        Some("rar".to_owned())
    } else {
        None
    }
}

/// Finds the 7z program: the first of `7z`, `7zz` (7-Zip standalone) and `7za`
/// (7-Zip standalone, older naming) that `which_exists` reports.
pub fn find_7z<F: Fn(&str) -> bool>(which_exists: F) -> (found: Option<String>)
    requires
        forall|name: &str| call_requires(which_exists, (name,)),
    ensures
        match found {
            Some(name) => {
                ||| {
                    &&& name@ == "7z"@
                    &&& call_ensures(which_exists, ("7z",), true)
                }
                ||| {
                    &&& name@ == "7zz"@
                    &&& call_ensures(which_exists, ("7z",), false)
                    &&& call_ensures(which_exists, ("7zz",), true)
                }
                ||| {
                    &&& name@ == "7za"@
                    &&& call_ensures(which_exists, ("7z",), false)
                    &&& call_ensures(which_exists, ("7zz",), false)
                    &&& call_ensures(which_exists, ("7za",), true)
                }
            },
            None => {
                &&& call_ensures(which_exists, ("7z",), false)
                &&& call_ensures(which_exists, ("7zz",), false)
                &&& call_ensures(which_exists, ("7za",), false)
            },
        },
{
    if which_exists("7z") {
        Some("7z".to_owned())
    } else if which_exists("7zz") {
        Some("7zz".to_owned())
    } else if which_exists("7za") {
        Some("7za".to_owned())
    } else {
        None
    }
}

/// The program that is to extract a RAR archive.
#[derive(Debug)]
pub struct RarExtractor {
    /// Its name.
    pub bin: String,
    /// Whether it is a 7z program.
    pub use_7z: bool,
}

/// The characters of an optional text.
pub open spec fn owned_text(text: Option<String>) -> Option<Seq<char>> {
    match text {
        Some(t) => Some(t@),
        None => None,
    }
}

/// The program for a RAR archive, and whether it is a 7z program, given what there
/// is of each kind.
pub open spec fn rar_choice(unrar: Option<Seq<char>>, sevenz: Option<Seq<char>>) -> Option<
    (Seq<char>, bool),
> {
    match unrar {
        Some(name) => Some((name, false)),
        None => match sevenz {
            Some(name) => Some((name, true)),
            None => None,
        },
    }
}

impl RarExtractor {
    /// The arguments with which the program extracts a RAR archive.
    pub fn args(&self, rar_file: &str, output_dir: &str, password: Option<&str>) -> (args: Vec<
        String,
    >)
        ensures
            texts(args@) == rar_args(self.use_7z, rar_file@, output_dir@, opt_text(password)),
    {
        if self.use_7z {
            rar_extract_args_with_7z(rar_file, output_dir, password)
        } else {
            rar_extract_args_with_unrar(rar_file, output_dir, password)
        }
    }
}

/// Picks the program for a RAR archive. One made for RAR comes first: some 7z
/// programs are built without the RAR codec.
pub fn choose_rar_extractor(unrar: Option<String>, sevenz: Option<String>) -> (chosen: Result<
    RarExtractor,
    UnpackError,
>)
    ensures
        match chosen {
            Ok(e) => rar_choice(owned_text(unrar), owned_text(sevenz)) == Some((e.bin@, e.use_7z)),
            Err(e) => rar_choice(owned_text(unrar), owned_text(sevenz)) is None && e@
                == UnpackErrorView::NoRarExtractor,
        },
{
    match unrar {
        Some(bin) => Ok(RarExtractor { bin, use_7z: false }),
        None => match sevenz {
            Some(bin) => Ok(RarExtractor { bin, use_7z: true }),
            None => Err(UnpackError::NoRarExtractor),
        },
    }
}

/// The program for a 7z archive.
pub fn choose_7z_extractor(sevenz: Option<String>) -> (chosen: Result<String, UnpackError>)
    ensures
        match sevenz {
            Some(name) => chosen matches Ok(bin) && bin@ == name@,
            None => chosen matches Err(e) && e@ == UnpackErrorView::NoSevenZip,
        },
{
    match sevenz {
        Some(bin) => Ok(bin),
        None => Err(UnpackError::NoSevenZip),
    }
}

/// The characters of an optional text.
pub open spec fn opt_text(text: Option<&str>) -> Option<Seq<char>> {
    match text {
        Some(t) => Some(t@),
        None => None,
    }
}

/// The unrar flag for a password; without one, the flag that keeps unrar from
/// asking.
pub open spec fn unrar_flag(password: Option<Seq<char>>) -> Seq<char> {
    match password {
        Some(pw) => "-p"@ + pw,
        None => "-p-"@,
    }
}

/// The 7z flags for a password: none without one.
pub open spec fn sevenz_flags(password: Option<Seq<char>>) -> Seq<Seq<char>> {
    match password {
        Some(pw) => seq!["-p"@ + pw],
        None => seq![],
    }
}

/// The arguments with which 7z extracts an archive.
pub open spec fn sevenz_args(
    archive: Seq<char>,
    output_dir: Seq<char>,
    password: Option<Seq<char>>,
) -> Seq<Seq<char>> {
    seq!["x"@, "-y"@] + sevenz_flags(password) + seq!["-o"@ + output_dir, archive]
}

/// The arguments with which unrar extracts an archive.
pub open spec fn unrar_args(
    archive: Seq<char>,
    output_dir: Seq<char>,
    password: Option<Seq<char>>,
) -> Seq<Seq<char>> {
    seq![
        "x"@,
        "-o+"@,
        "-y"@,
        unrar_flag(password),
        "-ai"@,
        "-idp"@,
        archive,
        output_dir,
    ]
}

/// The arguments with which a program extracts a RAR archive.
pub open spec fn rar_args(
    use_7z: bool,
    archive: Seq<char>,
    output_dir: Seq<char>,
    password: Option<Seq<char>>,
) -> Seq<Seq<char>> {
    if use_7z {
        sevenz_args(archive, output_dir, password)
    } else {
        unrar_args(archive, output_dir, password)
    }
}

/// The unrar flag for a password.
pub fn unrar_password_flag(password: Option<&str>) -> (flag: String)
    ensures
        flag@ == unrar_flag(opt_text(password)),
{
    match password {
        Some(pw) => {
            let mut flag: String = "-p".to_owned();
            flag.append(pw);
            flag
        },
        None => "-p-".to_owned(),
    }
}

/// The 7z flag for a password, none without one.
pub fn sevenz_password_arg(password: Option<&str>) -> (flag: Option<String>)
    ensures
        match password {
            Some(pw) => flag matches Some(f) && f@ == "-p"@ + pw@,
            None => flag is None,
        },
{
    match password {
        Some(pw) => {
            let mut flag: String = "-p".to_owned();
            flag.append(pw);
            Some(flag)
        },
        None => None,
    }
}

/// The arguments with which 7z extracts a RAR archive. Without a password
/// there is no password flag: 7z would take `-p-` for a password.
pub fn rar_extract_args_with_7z(
    rar_file: &str,
    output_dir: &str,
    password: Option<&str>,
) -> (args: Vec<String>)
    ensures
        texts(args@) == sevenz_args(rar_file@, output_dir@, opt_text(password)),
{
    sevenz_extract_args(rar_file, output_dir, password)
}

/// The arguments with which unrar extracts a RAR archive.
pub fn rar_extract_args_with_unrar(
    rar_file: &str,
    output_dir: &str,
    password: Option<&str>,
) -> (args: Vec<String>)
    ensures
        texts(args@) == unrar_args(rar_file@, output_dir@, opt_text(password)),
{
    let mut args: Vec<String> = Vec::new();
    args.push("x".to_owned());
    args.push("-o+".to_owned());
    args.push("-y".to_owned());
    args.push(unrar_password_flag(password));
    args.push("-ai".to_owned());
    args.push("-idp".to_owned());
    args.push(rar_file.to_owned());
    args.push(output_dir.to_owned());
    assert(texts(args@) =~= unrar_args(rar_file@, output_dir@, opt_text(password)));
    args
}

/// The arguments with which 7z extracts a 7z archive.
pub fn sevenz_extract_args(
    archive_file: &str,
    output_dir: &str,
    password: Option<&str>,
) -> (args: Vec<String>)
    ensures
        texts(args@) == sevenz_args(archive_file@, output_dir@, opt_text(password)),
{
    let mut args: Vec<String> = Vec::new();
    args.push("x".to_owned());
    args.push("-y".to_owned());
    if let Some(flag) = sevenz_password_arg(password) {
        args.push(flag);
    }
    let mut output: String = "-o".to_owned();
    output.append(output_dir);
    args.push(output);
    args.push(archive_file.to_owned());
    assert(texts(args@) =~= sevenz_args(archive_file@, output_dir@, opt_text(password)));
    args
}

/// The text that `String::from_utf8_lossy` makes of bytes.
pub uninterp spec fn lossy_text(bytes: Seq<u8>) -> Seq<char>;

/// `String::from_utf8_lossy` turns bytes into text, with a replacement
/// character for what is not valid UTF-8; valid UTF-8 is decoded as it stands.
#[verifier::external_body]
fn utf8_lossy(bytes: &[u8]) -> (text: String)
    ensures
        text@ == lossy_text(bytes@),
        vstd::utf8::valid_utf8(bytes@) ==> text@ == vstd::utf8::decode_utf8(bytes@),
{
    String::from_utf8_lossy(bytes).into_owned()
}

/// How a run of an external program ended, and what it wrote.
#[derive(Debug)]
pub struct ToolRun {
    /// Whether the program reported success.
    pub success: bool,
    /// What it wrote to its standard output.
    pub stdout: String,
    /// What it wrote to its standard error.
    pub stderr: String,
}

/// What the programs write when they lack the right password.
pub open spec fn rar_password_texts() -> Seq<Seq<char>> {
    seq!["Enter password"@, "password is incorrect"@, "Encrypted file"@]
}

/// What 7z writes when it lacks the right password.
pub open spec fn sevenz_password_texts() -> Seq<Seq<char>> {
    seq![
        "Wrong password"@,
        "Can not open encrypted archive"@,
        "Enter password"@,
        "ERROR: Data Error in encrypted file"@,
        "password is incorrect"@,
    ]
}

/// Whether one of the texts occurs in what a program wrote.
pub open spec fn wrote_one_of(stdout: Seq<char>, stderr: Seq<char>, marks: Seq<Seq<char>>) -> bool {
    exists|i: int|
        0 <= i < marks.len() && occurs_in(stdout + "\n"@ + stderr, #[trigger] marks[i])
}

/// Whether one of the texts occurs in what a program wrote.
fn wrote(run: &ToolRun, marks: &Vec<&str>) -> (found: bool)
    ensures
        found == wrote_one_of(run.stdout@, run.stderr@, marks@.map_values(|m: &str| m@)),
{
    let mut combined: String = run.stdout.clone();
    combined.append("\n");
    combined.append(run.stderr.as_str());
    let ghost views = marks@.map_values(|m: &str| m@);
    let mut i: usize = 0;
    while i < marks.len()
        invariant
            i <= marks@.len(),
            views == marks@.map_values(|m: &str| m@),
            combined@ == run.stdout@ + "\n"@ + run.stderr@,
            forall|k: int| 0 <= k < i ==> !occurs_in(combined@, #[trigger] views[k]),
        decreases marks@.len() - i,
    {
        if contains_text(combined.as_str(), marks[i]) {
            assert(occurs_in(combined@, views[i as int]));
            return true;
        }
        i = i + 1;
    }
    false
}

/// What is to be done after a run.
#[derive(Debug)]
pub enum ToolStep {
    /// Nothing: the program failed, and this is the result.
    Failed(UnpackResult),
    /// The program succeeded: what it left behind is to be validated, and the
    /// files that are new handed to `into_result`.
    Succeeded(ToolRun),
}

/// The step after a run that may have failed for want of the right password,
/// as the given texts tell.
pub open spec fn is_step_after(
    step: Result<ToolStep, UnpackError>,
    run: ToolRun,
    marks: Seq<Seq<char>>,
) -> bool {
    if run.success {
        step matches Ok(ToolStep::Succeeded(same)) && same == run
    } else if wrote_one_of(run.stdout@, run.stderr@, marks) {
        step matches Err(e) && e@ == UnpackErrorView::PasswordProtected
    } else {
        step matches Ok(ToolStep::Failed(result)) && {
            &&& !result.success
            &&& result.files_extracted@.len() == 0
            &&& result.output@ == run.stdout@
            &&& result.error_output@ == run.stderr@
        }
    }
}

impl ToolRun {
    /// What is to be done after a run on a RAR archive.
    pub fn rar_step(self) -> (step: Result<ToolStep, UnpackError>)
        ensures
            is_step_after(step, self, rar_password_texts()),
    {
        match self.rar_verdict() {
            Err(e) => Err(e),
            Ok(true) => Ok(ToolStep::Succeeded(self)),
            Ok(false) => Ok(ToolStep::Failed(self.into_result(Vec::new()))),
        }
    }

    /// What is to be done after a run on a 7z archive.
    pub fn sevenz_step(self) -> (step: Result<ToolStep, UnpackError>)
        ensures
            is_step_after(step, self, sevenz_password_texts()),
    {
        match self.sevenz_verdict() {
            Err(e) => Err(e),
            Ok(true) => Ok(ToolStep::Succeeded(self)),
            Ok(false) => Ok(ToolStep::Failed(self.into_result(Vec::new()))),
        }
    }

    /// The run of a program that wrote the given bytes.
    pub fn from_output(success: bool, stdout: &[u8], stderr: &[u8]) -> (run: ToolRun)
        ensures
            run.success == success,
            run.stdout@ == lossy_text(stdout@),
            run.stderr@ == lossy_text(stderr@),
    {
        ToolRun { success, stdout: utf8_lossy(stdout), stderr: utf8_lossy(stderr) }
    }

    /// Whether a run on a RAR archive succeeded; an error where it failed for
    /// want of the right password.
    pub fn rar_verdict(&self) -> (verdict: Result<bool, UnpackError>)
        ensures
            match verdict {
                Ok(success) => success == self.success && (success || !wrote_one_of(
                    self.stdout@,
                    self.stderr@,
                    rar_password_texts(),
                )),
                Err(e) => !self.success && e@ == UnpackErrorView::PasswordProtected
                    && wrote_one_of(self.stdout@, self.stderr@, rar_password_texts()),
            },
    {
        if self.success {
            return Ok(true);
        }
        let mut marks: Vec<&str> = Vec::new();
        marks.push("Enter password");
        marks.push("password is incorrect");
        marks.push("Encrypted file");
        assert(marks@.map_values(|m: &str| m@) =~= rar_password_texts());
        if wrote(self, &marks) {
            return Err(UnpackError::PasswordProtected);
        }
        Ok(false)
    }

    /// Whether a run on a 7z archive succeeded; an error where it failed for
    /// want of the right password.
    pub fn sevenz_verdict(&self) -> (verdict: Result<bool, UnpackError>)
        ensures
            match verdict {
                Ok(success) => success == self.success && (success || !wrote_one_of(
                    self.stdout@,
                    self.stderr@,
                    sevenz_password_texts(),
                )),
                Err(e) => !self.success && e@ == UnpackErrorView::PasswordProtected
                    && wrote_one_of(self.stdout@, self.stderr@, sevenz_password_texts()),
            },
    {
        if self.success {
            return Ok(true);
        }
        let mut marks: Vec<&str> = Vec::new();
        marks.push("Wrong password");
        marks.push("Can not open encrypted archive");
        marks.push("Enter password");
        marks.push("ERROR: Data Error in encrypted file");
        marks.push("password is incorrect");
        assert(marks@.map_values(|m: &str| m@) =~= sevenz_password_texts());
        if wrote(self, &marks) {
            return Err(UnpackError::PasswordProtected);
        }
        Ok(false)
    }

    /// The result of the run, with the files it left if it succeeded.
    pub fn into_result(self, files: Vec<String>) -> (result: UnpackResult)
        ensures
            result.success == self.success,
            texts(result.files_extracted@) == if self.success {
                texts(files@)
            } else {
                seq![]
            },
            result.files_extracted@.len() == if self.success {
                files@.len()
            } else {
                0
            },
            result.output@ == self.stdout@,
            result.error_output@ == self.stderr@,
    {
        let files_extracted: Vec<String> = if self.success {
            files
        } else {
            Vec::new()
        };
        assert(!self.success ==> texts(files_extracted@) =~= seq![]);
        UnpackResult {
            success: self.success,
            files_extracted,
            output: self.stdout,
            error_output: self.stderr,
        }
    }
}

/// Whether an argument is a password flag.
pub open spec fn is_password_flag(arg: Seq<char>) -> bool {
    arg.len() >= 2 && arg[0] == '-' && arg[1] == 'p'
}

/// Without a password 7z gets no password flag; unrar gets the one that keeps
/// it from asking. The paths, which come last, do not count.
pub proof fn law_no_password_no_7z_flag(archive: Seq<char>, output_dir: Seq<char>, i: int)
    requires
        0 <= i < sevenz_args(archive, output_dir, None).len() - 1,
    ensures
        !is_password_flag(sevenz_args(archive, output_dir, None)[i]),
        unrar_args(archive, output_dir, None)[3] == "-p-"@,
{
    reveal_strlit("x");
    reveal_strlit("-y");
    reveal_strlit("-o");
    let args = sevenz_args(archive, output_dir, None);
    assert(args =~= seq!["x"@, "-y"@, "-o"@ + output_dir, archive]);
}

/// With a password both programs get a password flag that holds it.
pub proof fn law_the_password_is_handed_on(
    archive: Seq<char>,
    output_dir: Seq<char>,
    password: Seq<char>,
)
    ensures
        sevenz_args(archive, output_dir, Some(password))[2] == "-p"@ + password,
        unrar_args(archive, output_dir, Some(password))[3] == "-p"@ + password,
        is_password_flag("-p"@ + password),
{
    reveal_strlit("-p");
}

/// The arguments in full: `x`, the flags, the password flag at its place where
/// there is one, the output directory and the archive as each program wants them.
pub proof fn law_what_the_programs_are_told(
    archive: Seq<char>,
    output_dir: Seq<char>,
    password: Seq<char>,
)
    ensures
        sevenz_args(archive, output_dir, None) == seq!["x"@, "-y"@, "-o"@ + output_dir, archive],
        sevenz_args(archive, output_dir, Some(password)) == seq![
            "x"@,
            "-y"@,
            "-p"@ + password,
            "-o"@ + output_dir,
            archive,
        ],
        unrar_args(archive, output_dir, None) == seq![
            "x"@,
            "-o+"@,
            "-y"@,
            "-p-"@,
            "-ai"@,
            "-idp"@,
            archive,
            output_dir,
        ],
        unrar_args(archive, output_dir, Some(password)) == seq![
            "x"@,
            "-o+"@,
            "-y"@,
            "-p"@ + password,
            "-ai"@,
            "-idp"@,
            archive,
            output_dir,
        ],
{
    assert(sevenz_args(archive, output_dir, None) =~= seq![
        "x"@,
        "-y"@,
        "-o"@ + output_dir,
        archive,
    ]);
    assert(sevenz_args(archive, output_dir, Some(password)) =~= seq![
        "x"@,
        "-y"@,
        "-p"@ + password,
        "-o"@ + output_dir,
        archive,
    ]);
}

/// Something that a program wrote is found wherever it stands, on its standard
/// output or on its standard error, and each text that is looked for is.
pub proof fn law_what_a_program_wrote_is_found(
    before: Seq<char>,
    after: Seq<char>,
    other: Seq<char>,
    marks: Seq<Seq<char>>,
    i: int,
)
    requires
        0 <= i < marks.len(),
    ensures
        wrote_one_of(before + marks[i] + after, other, marks),
        wrote_one_of(other, before + marks[i] + after, marks),
{
    let mark = marks[i];
    let first = (before + mark + after) + "\n"@ + other;
    law_occurring_is_standing_between(first, mark);
    assert(before + mark + (after + "\n"@ + other) =~= first);
    assert(occurs_in(first, marks[i]));
    let second = other + "\n"@ + (before + mark + after);
    law_occurring_is_standing_between(second, mark);
    assert((other + "\n"@ + before) + mark + after =~= second);
    assert(occurs_in(second, marks[i]));
}

/// Nothing is found that was not written: of what was found, the two outputs with
/// a line break between them are something, a text that is looked for, and
/// something.
pub proof fn law_what_was_found_was_written(
    stdout: Seq<char>,
    stderr: Seq<char>,
    marks: Seq<Seq<char>>,
)
    requires
        wrote_one_of(stdout, stderr, marks),
    ensures
        exists|i: int, before: Seq<char>, after: Seq<char>|
            0 <= i < marks.len() && #[trigger] (before + marks[i] + after) == stdout + "\n"@ + stderr,
{
    let both = stdout + "\n"@ + stderr;
    let i = choose|i: int| 0 <= i < marks.len() && occurs_in(both, #[trigger] marks[i]);
    law_occurring_is_standing_between(both, marks[i]);
    let (before, after) = choose|before: Seq<char>, after: Seq<char>| #[trigger]
        (before + marks[i] + after) == both;
    assert((before + marks[i] + after) == both);
}

/// What tells of a missing password: these texts, each program its own, and no
/// others.
pub proof fn law_what_tells_of_a_missing_password()
    ensures
        rar_password_texts().to_set() == set![
            "Enter password"@,
            "password is incorrect"@,
            "Encrypted file"@,
        ],
        sevenz_password_texts().to_set() == set![
            "Wrong password"@,
            "Can not open encrypted archive"@,
            "Enter password"@,
            "ERROR: Data Error in encrypted file"@,
            "password is incorrect"@,
        ],
{
    let rar = rar_password_texts();
    let sevenz = sevenz_password_texts();
    assert(rar[0] == "Enter password"@ && rar[1] == "password is incorrect"@ && rar[2]
        == "Encrypted file"@);
    assert(sevenz[0] == "Wrong password"@ && sevenz[1] == "Can not open encrypted archive"@
        && sevenz[2] == "Enter password"@ && sevenz[3] == "ERROR: Data Error in encrypted file"@
        && sevenz[4] == "password is incorrect"@);
    assert(rar.to_set() =~= set![
        "Enter password"@,
        "password is incorrect"@,
        "Encrypted file"@,
    ]);
    assert(sevenz.to_set() =~= set![
        "Wrong password"@,
        "Can not open encrypted archive"@,
        "Enter password"@,
        "ERROR: Data Error in encrypted file"@,
        "password is incorrect"@,
    ]);
}

/// What a run comes to: one that succeeded goes on, whatever it wrote; one that
/// failed is an error exactly if it wrote of a password, and otherwise a result
/// without files that holds what it wrote.
pub proof fn law_what_a_run_comes_to(
    step: Result<ToolStep, UnpackError>,
    run: ToolRun,
    marks: Seq<Seq<char>>,
)
    requires
        is_step_after(step, run, marks),
    ensures
        run.success <==> (step matches Ok(s) && s is Succeeded),
        step matches Ok(ToolStep::Succeeded(same)) ==> same == run,
        step is Err <==> !run.success && wrote_one_of(run.stdout@, run.stderr@, marks),
        step matches Err(e) ==> e@ is PasswordProtected,
        step matches Ok(ToolStep::Failed(result)) ==> !result.success
            && result.files_extracted@.len() == 0 && result.output@ == run.stdout@
            && result.error_output@ == run.stderr@,
{
}

/// A program made for RAR is taken whenever there is one, whatever 7z program
/// there is; a 7z program exactly if there is none; and there is none to take
/// exactly if there is neither.
pub proof fn law_which_program_is_taken(name: Seq<char>, other: Option<Seq<char>>)
    ensures
        rar_choice(Some(name), other) == Some((name, false)),
        rar_choice(None, Some(name)) == Some((name, true)),
        rar_choice(None, None) is None,
{
}

/// Each program gets the arguments that are made for it.
pub proof fn law_programs_get_their_own_arguments(
    archive: Seq<char>,
    output_dir: Seq<char>,
    password: Option<Seq<char>>,
)
    ensures
        rar_args(true, archive, output_dir, password) == sevenz_args(archive, output_dir, password),
        rar_args(false, archive, output_dir, password) == unrar_args(archive, output_dir, password),
{
}

} // verus!
