//! Execution planning and result shaping around the sandbox. The pure parts
//! are verified: template dispatch, unique path construction, the composite
//! shell command (write, optional compile, run under the fixed in-sandbox
//! timeout, guaranteed cleanup), and the sentinel texts that stand in for
//! transport failures and the orchestrator-side timeout. The streaming itself
//! is outside work done by the caller, which hands its outcome back.
use vstd::prelude::*;
use crate::codegen::CodeGenerator;
use crate::codegen::c_generator::{CCodeGenerator, c_program};
use crate::codegen::cpp_generator::{CppCodeGenerator, cpp_program};
use crate::codegen::python_generator::{PythonCodeGenerator, python_program};
use crate::config::{Config, LanguageConfig, spec_get_container, spec_get_language};
use crate::model::TestCase;
use crate::parser::{ParseOutcome, parse_output, parse_post};
use crate::text::{spec_find, str_eq, str_find_from, lemma_find_bounds};

verus! {

use vstd::string::StringExecFns;
use vstd::string::StrSliceExecFns;

/// The standard-alphabet base64 encoding of the UTF-8 bytes of `text`; a
/// function of the text alone.
pub uninterp spec fn base64_of(text: Seq<char>) -> Seq<char>;

/// Relies on base64's `general_purpose::STANDARD` engine: the encoding
/// depends on the input bytes alone.
#[verifier::external_body]
fn encode_base64(text: &str) -> (r: String)
    ensures
        r@ == base64_of(text@),
{
    base64::Engine::encode(&base64::engine::general_purpose::STANDARD, text.as_bytes())
}

/// Relies on uuid's v4 generator and its hyphenated `Display` form: 36
/// characters. The value itself is random, so nothing more is promised.
#[verifier::external_body]
fn fresh_run_id() -> (r: String)
    ensures
        r@.len() == 36,
{
    uuid::Uuid::new_v4().to_string()
}

/// `s` with every occurrence of `pat` replaced by `to`, left to right and
/// without overlap, as `str::replace` does it.
pub open spec fn spec_replace(s: Seq<char>, pat: Seq<char>, to: Seq<char>) -> Seq<char>
    decreases s.len(),
    via spec_replace_dec
{
    if pat.len() == 0 {
        s
    } else {
        match spec_find(s, pat, 0) {
            None => s,
            Some(k) => s.take(k) + to + spec_replace(s.skip(k + pat.len()), pat, to),
        }
    }
}

#[via_fn]
proof fn spec_replace_dec(s: Seq<char>, pat: Seq<char>, to: Seq<char>) {
    lemma_find_bounds(s, pat, 0);
}

/// Substitutes a placeholder throughout a command template.
#[verifier::loop_isolation(false)]
pub fn replace_all(s: &str, pat: &str, to: &str) -> (r: String)
    requires
        pat@.len() >= 1,
    ensures
        r@ == spec_replace(s@, pat@, to@),
{
    let m = s.unicode_len();
    let n = pat.unicode_len();
    let mut out = String::new();
    let mut pos: usize = 0;
    proof {
        assert(s@.skip(0) =~= s@);
    }
    loop
        invariant
            pos <= s@.len(),
            m == s@.len(),
            n == pat@.len(),
            spec_replace(s@, pat@, to@) == out@ + spec_replace(s@.skip(pos as int), pat@, to@),
        decreases s@.len() - pos,
    {
        let ghost rest = s@.skip(pos as int);
        match str_find_from(s, pos, pat) {
            Some(k) => {
                proof {
                    lemma_find_bounds(s@, pat@, pos as int);
                    crate::text::lemma_find_shift(s@, pat@, pos as int, pos as int);
                    assert(rest.take(k - pos) =~= s@.subrange(pos as int, k as int));
                    assert(rest.skip(k - pos + n) =~= s@.skip(k + n));
                }
                out.append(s.substring_char(pos, k));
                out.append(to);
                pos = k + n;
            },
            None => {
                proof {
                    crate::text::lemma_find_shift(s@, pat@, pos as int, pos as int);
                    assert(s@.subrange(pos as int, m as int) =~= rest);
                }
                out.append(s.substring_char(pos, m));
                proof {
                    assert(out@ =~= spec_replace(s@, pat@, to@));
                }
                return out;
            },
        }
    }
}

/// Rejections that happen before any sandbox interaction.
#[derive(Debug)]
pub enum ConfigError {
    /// No generator exists for the requested language tag.
    UnsupportedLanguage,
    /// The tag has no enabled profile in the configuration.
    LanguageUnavailable,
    /// The tag has no container mapping in the configuration.
    ContainerMissing,
}

pub open spec fn spec_describe_error(e: ConfigError, lang: Seq<char>) -> Seq<char> {
    match e {
        ConfigError::UnsupportedLanguage => "Unsupported language: "@ + lang,
        ConfigError::LanguageUnavailable => "Language '"@ + lang + "' not supported or disabled"@,
        ConfigError::ContainerMissing => "Container for '"@ + lang + "' not configured"@,
    }
}

impl ConfigError {
    /// The error text surfaced to the caller.
    pub fn describe(&self, lang: &str) -> (r: String)
        ensures
            r@ == spec_describe_error(*self, lang@),
    {
        match self {
            ConfigError::UnsupportedLanguage => {
                let mut r = String::from_str("Unsupported language: ");
                r.append(lang);
                r
            },
            ConfigError::LanguageUnavailable => {
                let mut r = String::from_str("Language '");
                r.append(lang);
                r.append("' not supported or disabled");
                r
            },
            ConfigError::ContainerMissing => {
                let mut r = String::from_str("Container for '");
                r.append(lang);
                r.append("' not configured");
                r
            },
        }
    }
}

/// Which program text each supported language tag gets.
pub open spec fn spec_program_for(
    lang: Seq<char>,
    code: Seq<char>,
    function: Seq<char>,
    cases: Seq<TestCase>,
) -> Seq<char> {
    if lang == "c"@ {
        c_program(code, function, cases)
    } else if lang == "cpp"@ {
        cpp_program(code, function, cases)
    } else {
        python_program(code, function, cases)
    }
}

pub open spec fn spec_supported(lang: Seq<char>) -> bool {
    lang == "c"@ || lang == "cpp"@ || lang == "python"@
}

/// Dispatches to the generator for the language tag, or `None` for a tag
/// without one.
pub fn synthesize_program(
    lang: &str,
    code: &str,
    function: &str,
    test_cases: &Vec<TestCase>,
) -> (r: Option<String>)
    ensures
        r is Some <==> spec_supported(lang@),
        r matches Some(p) ==> p@ == spec_program_for(lang@, code@, function@, test_cases@),
{
    if str_eq(lang, "c") {
        let g = CCodeGenerator;
        Some(g.generate(code, function, test_cases))
    } else if str_eq(lang, "cpp") {
        let g = CppCodeGenerator;
        Some(g.generate(code, function, test_cases))
    } else if str_eq(lang, "python") {
        let g = PythonCodeGenerator;
        Some(g.generate(code, function, test_cases))
    } else {
        None
    }
}

pub open spec fn spec_source_path(id: Seq<char>, ext: Seq<char>) -> Seq<char> {
    "/tmp/main_"@ + id + "."@ + ext
}

pub open spec fn spec_binary_path(id: Seq<char>) -> Seq<char> {
    "/tmp/main_"@ + id
}

/// The composite in-sandbox command: decode-write the program, compile it if
/// the profile says so, and run it under the fixed five-second in-sandbox
/// timeout. The removal of the generated files stands after that timeout's
/// region, so cleanup runs whatever became of the write, the compile or the
/// run — also when the timeout kills the run.
pub open spec fn spec_full_cmd(cfg: LanguageConfig, encoded: Seq<char>, id: Seq<char>) -> Seq<
    char,
> {
    let source = spec_source_path(id, cfg.file_extension@);
    let binary = spec_binary_path(id);
    let write = "echo '"@ + encoded + "' | base64 -d > "@ + source;
    match cfg.compile_cmd {
        Some(cc) => write + " && "@ + spec_replace(
            spec_replace(cc@, "{source}"@, source),
            "{binary}"@,
            binary,
        ) + " && timeout 5s bash -c '"@ + spec_replace(cfg.run_cmd@, "{binary}"@, binary)
            + " 2>&1'; EXIT_CODE=$?; rm -f "@ + source + " "@ + binary + "; exit $EXIT_CODE"@,
        None => write + " && timeout 5s bash -c '"@ + spec_replace(
            cfg.run_cmd@,
            "{source}"@,
            source,
        ) + " 2>&1'; EXIT_CODE=$?; rm -f "@ + source + "; exit $EXIT_CODE"@,
    }
}

/// Everything the caller needs to submit one sandboxed run.
#[derive(Debug)]
pub struct ExecutionPlan {
    pub container: String,
    pub source_file: String,
    pub binary_file: String,
    pub program: String,
    pub full_cmd: String,
}

/// The plan is exactly what the configuration and the fresh identifier
/// dictate.
pub open spec fn plan_matches(
    plan: ExecutionPlan,
    lang: Seq<char>,
    code: Seq<char>,
    function: Seq<char>,
    cases: Seq<TestCase>,
    config: Config,
    id: Seq<char>,
) -> bool {
    &&& spec_get_language(config, lang) matches Some(cfg) && {
        let prog = spec_program_for(lang, code, function, cases);
        &&& spec_get_container(config, lang) matches Some(cn) && plan.container@ == cn@
        &&& plan.source_file@ == spec_source_path(id, cfg.file_extension@)
        &&& plan.binary_file@ == spec_binary_path(id)
        &&& plan.program@ == prog
        &&& plan.full_cmd@ == spec_full_cmd(cfg, base64_of(prog), id)
    }
}

/// Validates the request against the configuration and builds the sandbox
/// command, contacting nothing: rejected tags never reach the sandbox. The
/// fresh 36-character identifier is the sole collision avoidance between
/// concurrent requests sharing one container.
pub fn plan_execution(
    lang: &str,
    code: &str,
    function: &str,
    test_cases: &Vec<TestCase>,
    config: &Config,
) -> (r: Result<ExecutionPlan, ConfigError>)
    ensures
        match r {
            Ok(plan) => spec_supported(lang@) && exists|id: Seq<char>|
                #![auto]
                id.len() == 36 && plan_matches(
                    plan,
                    lang@,
                    code@,
                    function@,
                    test_cases@,
                    *config,
                    id,
                ),
            Err(e) => match e {
                ConfigError::UnsupportedLanguage => !spec_supported(lang@),
                ConfigError::LanguageUnavailable => spec_supported(lang@) && spec_get_language(
                    *config,
                    lang@,
                ) is None,
                ConfigError::ContainerMissing => spec_supported(lang@) && spec_get_language(
                    *config,
                    lang@,
                ) is Some && spec_get_container(*config, lang@) is None,
            },
        },
{
    let program = match synthesize_program(lang, code, function, test_cases) {
        None => {
            return Err(ConfigError::UnsupportedLanguage);
        },
        Some(p) => p,
    };
    let cfg = match config.get_language(lang) {
        None => {
            return Err(ConfigError::LanguageUnavailable);
        },
        Some(cfg) => cfg,
    };
    let container = match config.get_container(lang) {
        None => {
            return Err(ConfigError::ContainerMissing);
        },
        Some(c) => String::from_str(c),
    };
    let id = fresh_run_id();
    let mut source_file = String::from_str("/tmp/main_");
    source_file.append(id.as_str());
    source_file.append(".");
    source_file.append(cfg.file_extension.as_str());
    let mut binary_file = String::from_str("/tmp/main_");
    binary_file.append(id.as_str());
    let encoded = encode_base64(program.as_str());
    let mut cmd = String::from_str("echo '");
    cmd.append(encoded.as_str());
    cmd.append("' | base64 -d > ");
    cmd.append(source_file.as_str());
    proof {
        reveal_strlit("{source}");
        reveal_strlit("{binary}");
    }
    match &cfg.compile_cmd {
        Some(cc) => {
            let compile_1 = replace_all(cc.as_str(), "{source}", source_file.as_str());
            let compile = replace_all(compile_1.as_str(), "{binary}", binary_file.as_str());
            let run = replace_all(cfg.run_cmd.as_str(), "{binary}", binary_file.as_str());
            cmd.append(" && ");
            cmd.append(compile.as_str());
            cmd.append(" && timeout 5s bash -c '");
            cmd.append(run.as_str());
            cmd.append(" 2>&1'; EXIT_CODE=$?; rm -f ");
            cmd.append(source_file.as_str());
            cmd.append(" ");
            cmd.append(binary_file.as_str());
            cmd.append("; exit $EXIT_CODE");
        },
        None => {
            let run = replace_all(cfg.run_cmd.as_str(), "{source}", source_file.as_str());
            cmd.append(" && timeout 5s bash -c '");
            cmd.append(run.as_str());
            cmd.append(" 2>&1'; EXIT_CODE=$?; rm -f ");
            cmd.append(source_file.as_str());
            cmd.append("; exit $EXIT_CODE");
        },
    }
    proof {
        reveal_strlit("{source}");
        reveal_strlit("{binary}");
        assert(cmd@ =~= spec_full_cmd(*cfg, base64_of(program@), id@));
        assert(source_file@ =~= spec_source_path(id@, cfg.file_extension@));
        assert(binary_file@ =~= spec_binary_path(id@));
    }
    let plan = ExecutionPlan { container, source_file, binary_file, program, full_cmd: cmd };
    proof {
        assert(plan_matches(plan, lang@, code@, function@, test_cases@, *config, id@));
    }
    Ok(plan)
}

/// How one streamed sandbox run ended, as the caller saw it.
pub enum StreamOutcome {
    /// The stream closed; all captured bytes, decoded.
    Completed(String),
    /// The transport failed mid-stream; its error text.
    TransportError(String),
    /// The orchestrator-side timeout won the race against the stream. The
    /// in-sandbox process may still be running until the in-command timeout
    /// fires; only the capture is abandoned.
    TimedOut,
}

/// The text handed to the parser for each way a run can end: captured output
/// as it is, or a sentinel — never a hard failure.
pub open spec fn spec_capture_text(o: StreamOutcome) -> Seq<char> {
    match o {
        StreamOutcome::Completed(s) => s@,
        StreamOutcome::TransportError(e) => "\u{274c} Internal error: "@ + e@,
        StreamOutcome::TimedOut => "\u{23f0} Execution timed out (killed by host)"@,
    }
}

/// Converts a run's outcome into parser input.
pub fn capture_text(outcome: StreamOutcome) -> (r: String)
    ensures
        r@ == spec_capture_text(outcome),
{
    match outcome {
        StreamOutcome::Completed(s) => s,
        StreamOutcome::TransportError(e) => {
            let mut r = String::from_str("\u{274c} Internal error: ");
            r.append(e.as_str());
            r
        },
        StreamOutcome::TimedOut => String::from_str("\u{23f0} Execution timed out (killed by host)"),
    }
}

/// The response shape for one request: the language tag, the whole-run wall
/// clock, and the parsed report (or its generic failure).
pub struct ExecutionResponse {
    pub language: String,
    pub execution_time_ms: u64,
    pub output: ParseOutcome,
}

/// Shapes the final response from a run's outcome: whatever way the stream
/// ended, the captured or sentinel text is parsed and a well-formed response
/// comes back.
pub fn finish_execution(lang: &str, execution_time_ms: u64, outcome: StreamOutcome) -> (r:
    ExecutionResponse)
    ensures
        r.language@ == lang@,
        r.execution_time_ms == execution_time_ms,
        parse_post(spec_capture_text(outcome), r.output),
{
    let text = capture_text(outcome);
    ExecutionResponse {
        language: String::from_str(lang),
        execution_time_ms,
        output: parse_output(text.as_str()),
    }
}

} // verus!
