//! Deciding in which mode to start. Conceptually, the profiler service holds
//! the buffers used for storing profiler data, while the app sends data over to
//! the profiler service. A process that was passed `--profiler-service` on its
//! command line is the profiler service; any other is the app.
use vstd::prelude::*;

verus! {

/// The mode a process starts in.
#[derive(Clone, Copy, Debug, PartialEq, Eq, Structural)]
pub enum StartupMode {
    ProfilerService,
    App,
}

/// The messages that the app sends to the profiler service.
#[derive(Clone, Copy, Debug, PartialEq, Eq, Structural)]
pub enum ToProfilerService {
    Hello(u32),
}

/// The command line flag that marks the profiler service; the argument after
/// it is the token of the connection to the app.
pub open spec fn profiler_service_flag() -> Seq<char> {
    "--profiler-service"@
}

/// The flag, as an owned string.
fn profiler_service_flag_string() -> (s: String)
    ensures
        s@ == profiler_service_flag(),
{
    "--profiler-service".to_owned()
}

/// Whether some argument is the flag.
pub open spec fn has_flag(args: Seq<String>) -> bool {
    exists|i: int| 0 <= i < args.len() && (#[trigger] args[i])@ == profiler_service_flag()
}

/// The index of the first argument that is the flag.
pub open spec fn first_flag_index(args: Seq<String>) -> int {
    choose|i: int| 0 <= i < args.len() && (#[trigger] args[i])@ == profiler_service_flag()
        && forall|j: int| 0 <= j < i ==> (#[trigger] args[j])@ != profiler_service_flag()
}

/// The argument that follows the first `--profiler-service` flag, if there is
/// such a flag and an argument after it.
pub fn get_token_from_args(args: &Vec<String>) -> (token: Option<String>)
    ensures
        match token {
            Some(t) => {
                &&& has_flag(args@)
                &&& first_flag_index(args@) + 1 < args@.len()
                &&& t@ == args@[first_flag_index(args@) + 1]@
            },
            None => !has_flag(args@) || first_flag_index(args@) + 1 == args@.len(),
        },
{
    let flag = profiler_service_flag_string();
    let mut is_token_string = false;
    let n = args.len();
    let mut i: usize = 0;
    while i < n
        invariant
            n == args@.len(),
            flag@ == profiler_service_flag(),
            i <= n,
            is_token_string <==> (i > 0 && args@[i - 1]@ == profiler_service_flag()),
            forall|j: int| 0 <= j < i - 1 ==> (#[trigger] args@[j])@ != profiler_service_flag(),
        decreases n - i,
    {
        if is_token_string {
            proof { lemma_first_flag_index(args@, i - 1); }
            return Some(args[i].clone());
        }
        if args[i] == flag {
            is_token_string = true;
        }
        i = i + 1;
    }
    proof {
        if is_token_string {
            lemma_first_flag_index(args@, i - 1);
        } else {
            // The last argument is not the flag either: it would have been seen.
            assert(i > 0 ==> args@[i - 1]@ != profiler_service_flag());
        }
    }
    None
}

/// The mode to start in: the profiler service when some argument is the flag,
/// the app otherwise.
pub fn deduce_startup_mode(args: &Vec<String>) -> (mode: StartupMode)
    ensures
        mode == if has_flag(args@) { StartupMode::ProfilerService } else { StartupMode::App },
{
    let flag = profiler_service_flag_string();
    let n = args.len();
    let mut i: usize = 0;
    while i < n
        invariant
            n == args@.len(),
            flag@ == profiler_service_flag(),
            i <= n,
            forall|j: int| 0 <= j < i ==> (#[trigger] args@[j])@ != profiler_service_flag(),
        decreases n - i,
    {
        if args[i] == flag {
            return StartupMode::ProfilerService;
        }
        i = i + 1;
    }
    StartupMode::App
}

/// When the argument at `i` is the flag and none before it is, `i` is the index
/// of the first flag.
proof fn lemma_first_flag_index(args: Seq<String>, i: int)
    requires
        0 <= i < args.len(),
        args[i]@ == profiler_service_flag(),
        forall|j: int| 0 <= j < i ==> (#[trigger] args[j])@ != profiler_service_flag(),
    ensures
        has_flag(args),
        first_flag_index(args) == i,
{
    let k = first_flag_index(args);
    assert(args[k]@ == profiler_service_flag());
    if k < i {
        assert(args[k]@ != profiler_service_flag());
    } else if k > i {
        assert(args[i]@ != profiler_service_flag());
    }
}

} // verus!
