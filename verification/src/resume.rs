//! Resume and handoff decisions: the exact backend command to run for a
//! resolved native id.  The subprocess itself runs outside the crate, which
//! performs the invocation this module prescribes and reports its exit.

use vstd::prelude::*;

use crate::sync::Backend;

verus! {

use crate::adapter::texts_of;

/// A backend invocation: the program, its arguments, and the working
/// directory it must run in (`None` inherits the caller's).
#[derive(Debug, PartialEq, Eq)]
pub struct ResumeCommand {
    pub program: String,
    pub args: Vec<String>,
    pub workdir: Option<String>,
}

/// The arguments a resume invocation carries.
pub open spec fn resume_args_spec(
    runner: Option<Seq<char>>,
    backend: Backend,
    native_id: Seq<char>,
    prompt: Seq<char>,
) -> Seq<Seq<char>> {
    match runner {
        Some(_) => seq![backend.key_spec(), "--resume"@, native_id, prompt],
        None => match backend {
            Backend::Codex => seq!["exec"@, "resume"@, native_id, prompt],
            Backend::Claude => seq!["-p"@, "-r"@, native_id, prompt],
        },
    }
}

/// The program a resume invocation runs: the test runner when one is set,
/// else the configured backend binary, else the backend's default name.
pub open spec fn resume_program_spec(
    runner: Option<Seq<char>>,
    backend: Backend,
    configured_bin: Option<Seq<char>>,
) -> Seq<char> {
    match runner {
        Some(r) => r,
        None => match configured_bin {
            Some(b) => b,
            None => match backend {
                Backend::Codex => "codex"@,
                Backend::Claude => "claude_code"@.take(6),
            },
        },
    }
}

/// Builds the backend command a resume runs: under the test runner,
/// `<runner> <backend> --resume <id> <prompt>` in the inherited directory;
/// otherwise the backend binary with `exec resume <id> <prompt>` (Codex) or
/// `-p -r <id> <prompt>` (claude_code), run inside the repo.
pub fn build_resume_command(
    runner: Option<&str>,
    backend: Backend,
    configured_bin: Option<&str>,
    native_id: &str,
    prompt: &str,
    repo: &str,
) -> (r: ResumeCommand)
    ensures
        r.program@ == resume_program_spec(
            match runner {
                Some(x) => Some(x@),
                None => None,
            },
            backend,
            match configured_bin {
                Some(x) => Some(x@),
                None => None,
            },
        ),
        texts_of(r.args@) == resume_args_spec(
            match runner {
                Some(x) => Some(x@),
                None => None,
            },
            backend,
            native_id@,
            prompt@,
        ),
        match runner {
            Some(_) => r.workdir is None,
            None => r.workdir matches Some(w) && w@ == repo@,
        },
{
    let mut args: Vec<String> = Vec::new();
    match runner {
        Some(rn) => {
            args.push(crate::sync::backend_key(backend).to_owned());
            args.push(String::from_str("--resume"));
            args.push(native_id.to_owned());
            args.push(prompt.to_owned());
            proof {
                assert(texts_of(args@) =~= seq![
                    backend.key_spec(),
                    "--resume"@,
                    native_id@,
                    prompt@,
                ]);
            }
            ResumeCommand { program: rn.to_owned(), args, workdir: None }
        },
        None => {
            let program: String = match configured_bin {
                Some(b) => b.to_owned(),
                None => {
                    proof {
                        reveal_strlit("claude_code");
                    }
                    match backend {
                        Backend::Codex => String::from_str("codex"),
                        Backend::Claude => {
                            let name = "claude_code".substring_char(0, 6);
                            proof {
                                assert(name@ =~= "claude_code"@.take(6));
                            }
                            name.to_owned()
                        },
                    }
                },
            };
            match backend {
                Backend::Codex => {
                    args.push(String::from_str("exec"));
                    args.push(String::from_str("resume"));
                },
                Backend::Claude => {
                    args.push(String::from_str("-p"));
                    args.push(String::from_str("-r"));
                },
            }
            args.push(native_id.to_owned());
            args.push(prompt.to_owned());
            proof {
                match backend {
                    Backend::Codex => {
                        assert(texts_of(args@) =~= seq![
                            "exec"@,
                            "resume"@,
                            native_id@,
                            prompt@,
                        ]);
                    },
                    Backend::Claude => {
                        assert(texts_of(args@) =~= seq!["-p"@, "-r"@, native_id@, prompt@]);
                    },
                }
            }
            ResumeCommand { program, args, workdir: Some(repo.to_owned()) }
        },
    }
}

} // verus!
