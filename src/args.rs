use vstd::prelude::*;
use vstd::string::StrSliceExecFns;

verus! {

/// Where the program text comes from.
#[derive(Debug, PartialEq, Eq)]
pub enum ProgramType {
    /// The program text itself, given on the command line.
    CLI(String),
    /// The path of a file that holds the program.
    File(String),
}

/// The command line, understood.
#[derive(Debug, PartialEq, Eq)]
pub struct AwkArgs {
    pub dump: bool,
    pub program: ProgramType,
    pub files: Vec<String>,
}

/// Why a command line was refused.
#[derive(Clone, Copy, Debug, PartialEq, Eq, Structural)]
pub enum ArgsError {
    /// A second program was given with `-f`.
    MultiplePrograms,
    /// `-f` was the last argument.
    MissingFileName,
    /// No program was given.
    NoProgram,
}

/// What a command line says: the dump flag, the program (from a file or
/// not, and its text or path), and the input paths.
pub struct ArgsView {
    pub dump: bool,
    pub from_file: bool,
    pub program: Seq<char>,
    pub files: Seq<Seq<char>>,
}

impl AwkArgs {
    /// What this command line says.
    pub open spec fn view(&self) -> ArgsView {
        ArgsView {
            dump: self.dump,
            from_file: self.program is File,
            program: match self.program {
                ProgramType::CLI(s) => s@,
                ProgramType::File(s) => s@,
            },
            files: self.files@.map_values(|f: String| f@),
        }
    }
}

/// Reads the arguments from position `i` on, given what was read before
/// them: `--dump` sets the flag, `-f` takes the next argument as the
/// program file, the first other argument is the program text and every
/// later one an input path.
pub open spec fn read_args(
    args: Seq<Seq<char>>,
    i: int,
    dump: bool,
    program: Option<(bool, Seq<char>)>,
    files: Seq<Seq<char>>,
) -> Result<ArgsView, ArgsError>
    decreases args.len() - i,
{
    if i < 0 || i >= args.len() {
        match program {
            None => Err(ArgsError::NoProgram),
            Some((f, p)) => Ok(ArgsView { dump, from_file: f, program: p, files }),
        }
    } else if args[i] == seq!['-', '-', 'd', 'u', 'm', 'p'] {
        read_args(args, i + 1, true, program, files)
    } else if args[i] == seq!['-', 'f'] {
        if program is Some {
            Err(ArgsError::MultiplePrograms)
        } else if i + 1 >= args.len() {
            Err(ArgsError::MissingFileName)
        } else {
            read_args(args, i + 2, dump, Some((true, args[i + 1])), files)
        }
    } else if program is None {
        read_args(args, i + 1, dump, Some((false, args[i])), files)
    } else {
        read_args(args, i + 1, dump, program, files.push(args[i]))
    }
}

/// Whether `s` holds exactly the characters `lit`.
fn is_word(s: &String, lit: &str) -> (r: bool)
    ensures
        r == (s@ == lit@),
{
    let t = s.as_str();
    if t.unicode_len() != lit.unicode_len() {
        return false;
    }
    let mut k: usize = 0;
    let n = lit.unicode_len();
    while k < n
        invariant
            0 <= k <= n,
            n == lit@.len(),
            t@ == s@,
            t@.len() == n,
            forall|j: int| 0 <= j < k ==> t@[j] == lit@[j],
        decreases n - k,
    {
        if t.get_char(k) != lit.get_char(k) {
            return false;
        }
        k = k + 1;
    }
    proof {
        assert(t@ =~= lit@);
    }
    true
}

impl AwkArgs {
    /// Understands a command line (`args[0]` is the program's own name):
    /// `[--dump] -f progfile file ...` or `[--dump] 'program' file ...`.
    pub fn new(args: Vec<String>) -> (r: Result<AwkArgs, ArgsError>)
        ensures
            ({
                let expected = read_args(args@.map_values(|a: String| a@), 1, false, None, Seq::empty());
                match r {
                    Ok(a) => expected == Ok::<ArgsView, ArgsError>(a.view()),
                    Err(e) => expected == Err::<ArgsView, ArgsError>(e),
                }
            }),
    {
        let ghost av = args@.map_values(|a: String| a@);
        let mut dump = false;
        let mut program: Option<ProgramType> = None;
        let mut files: Vec<String> = Vec::new();
        let mut i: usize = 1;
        proof {
            assert(files@.map_values(|f: String| f@) =~= Seq::<Seq<char>>::empty());
        }
        while i < args.len()
            invariant
                1 <= i,
                av == args@.map_values(|a: String| a@),
                read_args(av, i as int, dump, Self::program_view(program), files@.map_values(|f: String| f@))
                    == read_args(av, 1, false, None, Seq::empty()),
            decreases args.len() - i,
        {
            proof {
                assert(av[i as int] == args@[i as int]@);
            }
            if is_word(&args[i], "--dump") {
                proof {
                    reveal_strlit("--dump");
                    assert("--dump"@ =~= seq!['-', '-', 'd', 'u', 'm', 'p']);
                }
                dump = true;
                i = i + 1;
            } else if is_word(&args[i], "-f") {
                proof {
                    reveal_strlit("-f");
                    reveal_strlit("--dump");
                    assert("-f"@ =~= seq!['-', 'f']);
                    assert("--dump"@ =~= seq!['-', '-', 'd', 'u', 'm', 'p']);
                    assert(av[i as int] =~= seq!['-', 'f']);
                    assert(av[i as int] != seq!['-', '-', 'd', 'u', 'm', 'p']);
                }
                if program.is_some() {
                    return Err(ArgsError::MultiplePrograms);
                }
                if i + 1 >= args.len() {
                    return Err(ArgsError::MissingFileName);
                }
                program = Some(ProgramType::File(args[i + 1].clone()));
                proof {
                    assert(av[i + 1] == args@[i + 1]@);
                }
                i = i + 2;
            } else {
                proof {
                    reveal_strlit("-f");
                    reveal_strlit("--dump");
                    assert("--dump"@ =~= seq!['-', '-', 'd', 'u', 'm', 'p']);
                    assert("-f"@ =~= seq!['-', 'f']);
                    assert(av[i as int] != seq!['-', '-', 'd', 'u', 'm', 'p']);
                    assert(av[i as int] != seq!['-', 'f']);
                }
                if program.is_none() {
                    program = Some(ProgramType::CLI(args[i].clone()));
                } else {
                    let ghost before = files@;
                    files.push(args[i].clone());
                    proof {
                        assert(files@.map_values(|f: String| f@) =~= before.map_values(|f: String| f@).push(
                            av[i as int],
                        ));
                    }
                }
                i = i + 1;
            }
        }
        match program {
            None => Err(ArgsError::NoProgram),
            Some(program) => Ok(AwkArgs { dump, program, files }),
        }
    }

    /// The program read so far, as `read_args` records it.
    pub open spec fn program_view(p: Option<ProgramType>) -> Option<(bool, Seq<char>)> {
        match p {
            None => None,
            Some(ProgramType::CLI(s)) => Some((false, s@)),
            Some(ProgramType::File(s)) => Some((true, s@)),
        }
    }
}

} // verus!
