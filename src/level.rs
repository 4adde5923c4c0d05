use vstd::prelude::*;

verus! {

/// The five severities of an instrumentation event, most severe first.
#[derive(Clone, Copy, Debug, PartialEq, Eq, Structural)]
pub enum Severity {
    Error,
    Warn,
    Info,
    Debug,
    Trace,
}

/// The Bunyan label written for each severity.
pub open spec fn level_label(level: Severity) -> Seq<char> {
    match level {
        Severity::Error => "ERROR"@,
        Severity::Warn => "WARN"@,
        Severity::Info => "INFO"@,
        Severity::Debug => "DEBUG"@,
        Severity::Trace => "TRACE"@,
    }
}

/// Converts a severity to its Bunyan label.
pub fn format_log_level(level: Severity) -> (r: &'static str)
    ensures
        r@ == level_label(level),
{
    match level {
        Severity::Error => "ERROR",
        Severity::Warn => "WARN",
        Severity::Info => "INFO",
        Severity::Debug => "DEBUG",
        Severity::Trace => "TRACE",
    }
}

/// Distinct severities get distinct labels, so a label names its severity.
pub proof fn lemma_level_label_injective(a: Severity, b: Severity)
    ensures
        level_label(a) == level_label(b) <==> a == b,
{
    reveal_strlit("ERROR");
    reveal_strlit("WARN");
    reveal_strlit("INFO");
    reveal_strlit("DEBUG");
    reveal_strlit("TRACE");
    if a != b {
        assert(level_label(a)[0] != level_label(b)[0]);
    }
}

/// Every severity has a label, and it is one of the five fixed uppercase
/// labels; a function of the severity alone, it is the same on every call.
pub proof fn lemma_level_label_total(level: Severity)
    ensures
        level_label(level) == "ERROR"@ || level_label(level) == "WARN"@ || level_label(level) == "INFO"@
            || level_label(level) == "DEBUG"@ || level_label(level) == "TRACE"@,
{
}

} // verus!
