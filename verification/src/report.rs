//! `rtok report`: the operator model as one document. [`Document`] is the format-neutral
//! shape every renderer prints, section by section; its figures come from the ledger model
//! below and nothing else, and every figure carries the rows it came from and the window
//! it covers. Latencies and rates arrive already formatted (`{:.1}`), so no renderer
//! computes a number.

use vstd::prelude::*;

use crate::text::Chars;

verus! {

/// The window a report covers and the row counts of each ledger.
pub struct ReportWindow {
    pub since: String,
    pub from_unix: i64,
    pub to_unix: i64,
    pub from_date: String,
    pub to_date: String,
    pub db_path: String,
    pub calls_in_window: u64,
    pub calls_total: u64,
    pub measurements: u64,
    pub usage: u64,
}

/// Net estimated savings of one plugin.
pub struct ReportSavings {
    pub plugin: String,
    pub rows: u64,
    pub est_before: i64,
    pub est_after: i64,
    pub saved: i64,
}

/// The savings section: one row per plugin, totals, and the Measurement kinds seen.
pub struct ReportSavingsSection {
    pub rows: Vec<ReportSavings>,
    pub total_rows: u64,
    pub total_saved: i64,
    pub kinds: Vec<String>,
}

/// One token sink: a path, a command stem or an MCP tool, and the switch that trims it.
pub struct ReportSink {
    pub class: String,
    pub sink: String,
    pub before_bytes: i64,
    pub rows: u64,
    pub switch: String,
}

/// The largest sinks.
pub struct ReportSinksSection {
    pub rows: Vec<ReportSink>,
}

/// Latency of one surface; `p50_ms` / `p95_ms` are formatted with one decimal, `None` when
/// no call was timed.
pub struct ReportCalls {
    pub surface: String,
    pub calls: u64,
    pub timed: u64,
    pub p50_ms: Option<String>,
    pub p95_ms: Option<String>,
}

/// How often one hook event fired in the window.
pub struct ReportHook {
    pub name: String,
    pub calls: u64,
}

/// The calls section.
pub struct ReportCallsSection {
    pub rows: Vec<ReportCalls>,
    pub in_window: u64,
    pub total: u64,
    pub hooks: Vec<ReportHook>,
}

/// One prompt-cache bust.
pub struct ReportBust {
    pub session: String,
    pub turn: u64,
    pub cause: String,
    pub cache_create: i64,
    pub cache_read: i64,
}

/// The cache section.
pub struct ReportCache {
    pub sessions: u64,
    pub turns: u64,
    pub busts: u64,
    pub by_cause: Vec<(String, u64)>,
    pub detail: Vec<ReportBust>,
}

/// The expand section; `rate_pct` is `expanded / decisions` as a percentage with one
/// decimal.
pub struct ReportExpand {
    pub decisions: i64,
    pub expanded: i64,
    pub rate_pct: String,
    pub expanded_ids: Vec<String>,
    pub cost: i64,
    pub cost_rows: u64,
}

/// Every ledger figure of one report.
pub struct ReportLedgers {
    pub window: ReportWindow,
    pub savings: ReportSavingsSection,
    pub sinks: ReportSinksSection,
    pub calls: ReportCallsSection,
    pub cache: ReportCache,
    pub expand: ReportExpand,
}

/// One effective configuration key and the layer it comes from.
pub struct ConfigEntry {
    pub key: String,
    pub value: String,
    pub source: String,
}

/// One recommendation: a rule over the ledgers, what it found, and the rows it read.
pub struct Recommendation {
    pub rule: String,
    pub finding: String,
    pub evidence: String,
}

/// The whole report: ledgers, the effective config, the doctor page's text, and the
/// recommendations, most recoverable tokens first.
pub struct Document {
    pub ledgers: ReportLedgers,
    pub config: Vec<ConfigEntry>,
    pub doctor: String,
    pub recommendations: Vec<Recommendation>,
}

/// A recommendation as a value: rule, finding, evidence.
pub open spec fn rec_view(r: Recommendation) -> (Chars, Chars, Chars) {
    (r.rule@, r.finding@, r.evidence@)
}

/// The views of a list of recommendations.
pub open spec fn recs_view(v: Seq<Recommendation>) -> Seq<(Chars, Chars, Chars)> {
    Seq::new(v.len(), |i: int| rec_view(v[i]))
}

/// Build the document from the model: the recommendations are the advice rules over the
/// ledgers with `cfg`.
pub fn document(
    ledgers: ReportLedgers,
    config: Vec<ConfigEntry>,
    doctor: String,
    cfg: &crate::advice::AdviceConfig,
) -> (d: Document)
    requires
        crate::advice::advice_inputs_ok(ledgers, *cfg),
    ensures
        recs_view(d.recommendations@) == crate::advice::recommendations_spec(ledgers, *cfg),
        d.ledgers == ledgers,
        d.config == config,
        d.doctor == doctor,
{
    let recommendations = crate::advice::recommendations(&ledgers, cfg);
    Document { ledgers, config, doctor, recommendations }
}

} // verus!
