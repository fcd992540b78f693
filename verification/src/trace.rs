//! Structured debug trace: a log of state-transition events, each a name
//! with a one-line JSON object of fields, queried by name and rendered as
//! JSON lines.

use vstd::prelude::*;
use vstd::string::StringExecFns;

use crate::json_text::{
    decimal_digits, decimal_text, escape_json, escape_text, hex_digit,
    law_decimal_text_chars, law_decimal_text_injective, law_escape_has_no_control_chars,
    law_escape_round_trip, push_char, push_decimal_i128, push_decimal_u32, same_text,
    unescape_text,
};

verus! {

/// An event as contracts speak of it: its name and its JSON fields text.
pub type EventView = (Seq<char>, Seq<char>);

/// One captured state-transition event.
#[derive(Clone, Debug, PartialEq)]
pub struct TraceEvent {
    /// Canonical transition name (e.g. `"set_config"`).
    pub name: String,
    /// JSON fragment describing the transition (one-line JSON object).
    pub json: String,
}

impl View for TraceEvent {
    type V = EventView;

    open spec fn view(&self) -> EventView {
        (self.name@, self.json@)
    }
}

/// The JSON line of an event: `{"event":"<name>","fields":<json>}`.
pub open spec fn jsonl_line(name: Seq<char>, json: Seq<char>) -> Seq<char> {
    "{\"event\":\""@ + name + "\",\"fields\":"@ + json + "}"@
}

impl TraceEvent {
    /// An event named `name` with the JSON fields text `json`.
    pub fn new(name: &str, json: &str) -> (event: Self)
        ensures
            event.name@ == name@,
            event.json@ == json@,
    {
        TraceEvent { name: String::from_str(name), json: String::from_str(json) }
    }

    /// Returns the event as a single JSON line of shape
    /// `{"event":"<name>","fields":<json>}`.
    pub fn to_jsonl(&self) -> (line: String)
        ensures
            line@ == jsonl_line(self.name@, self.json@),
    {
        let mut out = String::from_str("{\"event\":\"");
        out.append(self.name.as_str());
        out.append("\",\"fields\":");
        out.append(self.json.as_str());
        out.append("}");
        out
    }
}

/// The recorded events, oldest first.
pub struct TraceLog {
    events: Vec<TraceEvent>,
}

impl View for TraceLog {
    type V = Seq<EventView>;

    closed spec fn view(&self) -> Seq<EventView> {
        self.events@.map_values(|e: TraceEvent| e@)
    }
}

impl TraceLog {
    /// An empty log.
    pub fn new() -> (log: Self)
        ensures
            log@ == Seq::<EventView>::empty(),
    {
        let log = TraceLog { events: Vec::new() };
        assert(log@ =~= Seq::<EventView>::empty());
        log
    }
}

/// Whether some event in `events` is named `name`.
pub open spec fn has_event(events: Seq<EventView>, name: Seq<char>) -> bool {
    exists|i: int| 0 <= i < events.len() && (#[trigger] events[i]).0 == name
}

/// The events named `name`, in the order they were recorded.
pub open spec fn events_named(events: Seq<EventView>, name: Seq<char>) -> Seq<EventView>
    decreases events.len(),
{
    if events.len() == 0 {
        Seq::empty()
    } else {
        let earlier = events_named(events.drop_last(), name);
        if events.last().0 == name {
            earlier.push(events.last())
        } else {
            earlier
        }
    }
}

/// The JSON-lines text of `events`: one line per event, each followed by
/// a newline.
pub open spec fn dump_text(events: Seq<EventView>) -> Seq<char>
    decreases events.len(),
{
    if events.len() == 0 {
        Seq::empty()
    } else {
        dump_text(events.drop_last()) + jsonl_line(events.last().0, events.last().1) + seq!['\n']
    }
}

/// Drop every recorded event.
pub fn reset(log: &mut TraceLog)
    ensures
        final(log)@ == Seq::<EventView>::empty(),
{
    log.events.clear();
    assert(log@ =~= Seq::<EventView>::empty());
}

/// Append a structured event. `name` is the canonical transition id and
/// `fields_json` the JSON object text of its fields.
pub fn record(log: &mut TraceLog, name: &str, fields_json: &str)
    ensures
        final(log)@ == old(log)@.push((name@, fields_json@)),
{
    let event = TraceEvent::new(name, fields_json);
    log.events.push(event);
    assert(log@ =~= old(log)@.push((name@, fields_json@)));
}

/// Returns `true` if any event named `name` has been recorded since the
/// most recent reset.
pub fn find_event(log: &TraceLog, name: &str) -> (found: bool)
    ensures
        found == has_event(log@, name@),
{
    let n = log.events.len();
    let mut i: usize = 0;
    while i < n
        invariant
            i <= n,
            n == log.events@.len(),
            log@ == log.events@.map_values(|e: TraceEvent| e@),
            forall|k: int| 0 <= k < i ==> (#[trigger] log@[k]).0 != name@,
        decreases n - i,
    {
        if same_text(log.events[i].name.as_str(), name) {
            assert(log@[i as int].0 == name@);
            return true;
        }
        i = i + 1;
    }
    false
}

/// Returns every event named `name` recorded since the most recent reset.
pub fn find_events(log: &TraceLog, name: &str) -> (found: Vec<TraceEvent>)
    ensures
        found@.map_values(|e: TraceEvent| e@) == events_named(log@, name@),
{
    let n = log.events.len();
    let mut out: Vec<TraceEvent> = Vec::new();
    let mut i: usize = 0;
    while i < n
        invariant
            i <= n,
            n == log.events@.len(),
            log@ == log.events@.map_values(|e: TraceEvent| e@),
            out@.map_values(|e: TraceEvent| e@) == events_named(log@.take(i as int), name@),
        decreases n - i,
    {
        let e = &log.events[i];
        assert(log@.take(i as int + 1).drop_last() =~= log@.take(i as int));
        if same_text(e.name.as_str(), name) {
            let copy = TraceEvent { name: e.name.clone(), json: e.json.clone() };
            out.push(copy);
            assert(out@.map_values(|e: TraceEvent| e@)
                =~= events_named(log@.take(i as int), name@).push(log@[i as int]));
        }
        i = i + 1;
    }
    assert(log@.take(n as int) =~= log@);
    out
}

/// Returns the number of events recorded since the most recent reset.
pub fn event_count(log: &TraceLog) -> (count: usize)
    ensures
        count == log@.len(),
{
    log.events.len()
}

/// Returns every recorded event as a JSON line, each followed by a
/// newline, ready to be written to a `.jsonl` file.
pub fn dump_jsonl(log: &TraceLog) -> (text: String)
    ensures
        text@ == dump_text(log@),
{
    let n = log.events.len();
    let mut out = String::new();
    let mut i: usize = 0;
    while i < n
        invariant
            i <= n,
            n == log.events@.len(),
            log@ == log.events@.map_values(|e: TraceEvent| e@),
            out@ == dump_text(log@.take(i as int)),
        decreases n - i,
    {
        let line = log.events[i].to_jsonl();
        out.append(line.as_str());
        push_char(&mut out, '\n');
        assert(log@.take(i as int + 1).drop_last() =~= log@.take(i as int));
        i = i + 1;
    }
    assert(log@.take(n as int) =~= log@);
    out
}

/// Fields of an `initialize` event.
pub open spec fn initialize_fields(admin_short: Seq<char>, operator_short: Seq<char>) -> Seq<char> {
    "{\"admin\":\""@ + admin_short + "\",\"operator\":\""@ + operator_short + "\"}"@
}

/// Fields of a `set_config` event.
pub open spec fn set_config_fields(
    severity: Seq<char>,
    threshold_minutes: int,
    penalty_per_minute: int,
    reward_base: int,
) -> Seq<char> {
    "{\"severity\":\""@ + severity + "\",\"threshold_minutes\":"@ + decimal_text(threshold_minutes)
        + ",\"penalty_per_minute\":"@ + decimal_text(penalty_per_minute) + ",\"reward_base\":"@
        + decimal_text(reward_base) + "}"@
}

/// Fields of a `calculate_sla` event.
pub open spec fn calculate_sla_fields(
    severity: Seq<char>,
    status: Seq<char>,
    payment_type: Seq<char>,
    rating: Seq<char>,
    amount: int,
    mttr_minutes: int,
    threshold_minutes: int,
) -> Seq<char> {
    "{\"severity\":\""@ + severity + "\",\"status\":\""@ + status + "\",\"payment_type\":\""@
        + payment_type + "\",\"rating\":\""@ + rating + "\",\"amount\":"@ + decimal_text(amount)
        + ",\"mttr_minutes\":"@ + decimal_text(mttr_minutes) + ",\"threshold_minutes\":"@
        + decimal_text(threshold_minutes) + "}"@
}

/// Fields of a `pause` event: the reason, JSON-escaped.
pub open spec fn pause_fields(reason: Seq<char>) -> Seq<char> {
    "{\"reason\":\""@ + escape_text(reason) + "\"}"@
}

/// Record an `initialize` transition.
pub fn record_initialize(log: &mut TraceLog, admin_short: &str, operator_short: &str)
    ensures
        final(log)@ == old(log)@.push(("initialize"@, initialize_fields(admin_short@, operator_short@))),
{
    let mut fields = String::from_str("{\"admin\":\"");
    fields.append(admin_short);
    fields.append("\",\"operator\":\"");
    fields.append(operator_short);
    fields.append("\"}");
    record(log, "initialize", fields.as_str());
}

/// Record a `set_config` transition.
pub fn record_set_config(
    log: &mut TraceLog,
    severity: &str,
    threshold_minutes: u32,
    penalty_per_minute: i128,
    reward_base: i128,
)
    ensures
        final(log)@ == old(log)@.push(
            (
                "set_config"@,
                set_config_fields(
                    severity@,
                    threshold_minutes as int,
                    penalty_per_minute as int,
                    reward_base as int,
                ),
            ),
        ),
{
    let mut fields = String::from_str("{\"severity\":\"");
    fields.append(severity);
    fields.append("\",\"threshold_minutes\":");
    push_decimal_u32(&mut fields, threshold_minutes);
    fields.append(",\"penalty_per_minute\":");
    push_decimal_i128(&mut fields, penalty_per_minute);
    fields.append(",\"reward_base\":");
    push_decimal_i128(&mut fields, reward_base);
    fields.append("}");
    record(log, "set_config", fields.as_str());
}

/// Record a `set_operator` transition.
pub fn record_set_operator(log: &mut TraceLog)
    ensures
        final(log)@ == old(log)@.push(("set_operator"@, "{}"@)),
{
    record(log, "set_operator", "{}");
}

/// Record a `calculate_sla` transition.
pub fn record_calculate_sla(
    log: &mut TraceLog,
    severity: &str,
    status: &str,
    payment_type: &str,
    rating: &str,
    amount: i128,
    mttr_minutes: u32,
    threshold_minutes: u32,
)
    ensures
        final(log)@ == old(log)@.push(
            (
                "calculate_sla"@,
                calculate_sla_fields(
                    severity@,
                    status@,
                    payment_type@,
                    rating@,
                    amount as int,
                    mttr_minutes as int,
                    threshold_minutes as int,
                ),
            ),
        ),
{
    let mut fields = String::from_str("{\"severity\":\"");
    fields.append(severity);
    fields.append("\",\"status\":\"");
    fields.append(status);
    fields.append("\",\"payment_type\":\"");
    fields.append(payment_type);
    fields.append("\",\"rating\":\"");
    fields.append(rating);
    fields.append("\",\"amount\":");
    push_decimal_i128(&mut fields, amount);
    fields.append(",\"mttr_minutes\":");
    push_decimal_u32(&mut fields, mttr_minutes);
    fields.append(",\"threshold_minutes\":");
    push_decimal_u32(&mut fields, threshold_minutes);
    fields.append("}");
    record(log, "calculate_sla", fields.as_str());
}

/// Record a `pause` transition; the reason is JSON-escaped.
pub fn record_pause(log: &mut TraceLog, reason: &str)
    ensures
        final(log)@ == old(log)@.push(("pause"@, pause_fields(reason@))),
{
    let mut fields = String::from_str("{\"reason\":\"");
    let escaped = escape_json(reason);
    fields.append(escaped.as_str());
    fields.append("\"}");
    record(log, "pause", fields.as_str());
}

/// Record an `unpause` transition.
pub fn record_unpause(log: &mut TraceLog)
    ensures
        final(log)@ == old(log)@.push(("unpause"@, "{}"@)),
{
    record(log, "unpause", "{}");
}

/// Record a `freeze_config` transition.
pub fn record_freeze_config(log: &mut TraceLog)
    ensures
        final(log)@ == old(log)@.push(("freeze_config"@, "{}"@)),
{
    record(log, "freeze_config", "{}");
}

/// Record an `unfreeze_config` transition.
pub fn record_unfreeze_config(log: &mut TraceLog)
    ensures
        final(log)@ == old(log)@.push(("unfreeze_config"@, "{}"@)),
{
    record(log, "unfreeze_config", "{}");
}

/// How many newline characters `s` holds.
pub open spec fn newline_count(s: Seq<char>) -> nat
    decreases s.len(),
{
    if s.len() == 0 {
        0
    } else {
        newline_count(s.drop_last()) + if s.last() == '\n' { 1nat } else { 0nat }
    }
}

/// Whether `s` holds no newline.
pub open spec fn single_line(s: Seq<char>) -> bool {
    forall|i: int| 0 <= i < s.len() ==> s[i] != '\n'
}

proof fn lemma_newline_count_append(a: Seq<char>, b: Seq<char>)
    ensures
        newline_count(a + b) == newline_count(a) + newline_count(b),
    decreases b.len(),
{
    if b.len() == 0 {
        assert(a + b =~= a);
    } else {
        lemma_newline_count_append(a, b.drop_last());
        assert((a + b).drop_last() =~= a + b.drop_last());
    }
}

proof fn lemma_single_line_no_newlines(s: Seq<char>)
    requires
        single_line(s),
    ensures
        newline_count(s) == 0,
    decreases s.len(),
{
    if s.len() > 0 {
        assert(single_line(s.drop_last()));
        lemma_single_line_no_newlines(s.drop_last());
    }
}

/// Law: a JSON line starts with `{`, ends with `}`, and holds a newline only
/// where the event's name or fields hold one.
pub proof fn law_jsonl_line_shape(name: Seq<char>, json: Seq<char>)
    ensures
        jsonl_line(name, json).len() > 0,
        jsonl_line(name, json)[0] == '{',
        jsonl_line(name, json).last() == '}',
        single_line(name) && single_line(json) ==> single_line(jsonl_line(name, json)),
{
    reveal_strlit("{\"event\":\"");
    reveal_strlit("\",\"fields\":");
    reveal_strlit("}");
    let line = jsonl_line(name, json);
    assert(line[0] == '{');
    if single_line(name) && single_line(json) {
        assert forall|i: int| 0 <= i < line.len() implies line[i] != '\n' by {
            let a = "{\"event\":\""@;
            let b = "\",\"fields\":"@;
            if i < a.len() {
            } else if i < a.len() + name.len() {
                assert(line[i] == name[i - a.len()]);
            } else if i < a.len() + name.len() + b.len() {
            } else if i < a.len() + name.len() + b.len() + json.len() {
                assert(line[i] == json[i - a.len() - name.len() - b.len()]);
            } else {
            }
        }
    }
}

/// Law: the dump holds one line per recorded event. When no event's name
/// or fields hold a newline, the dump holds exactly as many newlines as
/// there are events, and it ends with a newline unless it is empty.
pub proof fn law_dump_one_line_per_event(events: Seq<EventView>)
    requires
        forall|i: int| 0 <= i < events.len() ==> single_line((#[trigger] events[i]).0) && single_line(events[i].1),
    ensures
        newline_count(dump_text(events)) == events.len(),
        events.len() > 0 ==> dump_text(events).last() == '\n',
        events.len() == 0 ==> dump_text(events).len() == 0,
    decreases events.len(),
{
    if events.len() > 0 {
        let init = events.drop_last();
        let e = events.last();
        assert(forall|i: int| 0 <= i < init.len() ==> init[i] == events[i]);
        law_dump_one_line_per_event(init);
        assert(single_line(e.0) && single_line(e.1)) by {
            assert(e == events[events.len() - 1]);
        }
        law_jsonl_line_shape(e.0, e.1);
        lemma_single_line_no_newlines(jsonl_line(e.0, e.1));
        lemma_newline_count_append(dump_text(init), jsonl_line(e.0, e.1));
        lemma_newline_count_append(dump_text(init) + jsonl_line(e.0, e.1), seq!['\n']);
        assert(seq!['\n'].drop_last() =~= Seq::<char>::empty());
        assert(newline_count(Seq::<char>::empty()) == 0);
        assert(newline_count(seq!['\n']) == 1);
        assert(dump_text(events) == dump_text(init) + jsonl_line(e.0, e.1) + seq!['\n']);
    }
}

/// Law: recording an event makes its name found, and changes the answer
/// for no other name.
pub proof fn law_record_then_find(events: Seq<EventView>, name: Seq<char>, json: Seq<char>, other: Seq<char>)
    ensures
        has_event(events.push((name, json)), name),
        has_event(events.push((name, json)), other) == (other == name || has_event(events, other)),
{
    let after = events.push((name, json));
    assert(after[events.len() as int] == (name, json));
    if has_event(events, other) {
        let i = choose|i: int| 0 <= i < events.len() && (#[trigger] events[i]).0 == other;
        assert(after[i] == events[i]);
    }
    if has_event(after, other) && other != name {
        let i = choose|i: int| 0 <= i < after.len() && (#[trigger] after[i]).0 == other;
        assert(i < events.len());
        assert(events[i] == after[i]);
    }
}

/// Law: the events found by name are exactly the recorded events with that
/// name: each of them has the name, a recorded event comes last among
/// them, and some are found exactly when an event with the name exists.
pub proof fn law_find_events_consistent(events: Seq<EventView>, name: Seq<char>, json: Seq<char>)
    ensures
        forall|k: int| 0 <= k < events_named(events, name).len() ==> (#[trigger] events_named(events, name)[k]).0 == name,
        events_named(events, name).len() <= events.len(),
        events_named(events.push((name, json)), name) == events_named(events, name).push((name, json)),
        has_event(events, name) <==> events_named(events, name).len() > 0,
    decreases events.len(),
{
    let after = events.push((name, json));
    assert(after.drop_last() =~= events);
    if events.len() > 0 {
        let init = events.drop_last();
        law_find_events_consistent(init, name, json);
        if has_event(events, name) {
            let i = choose|i: int| 0 <= i < events.len() && (#[trigger] events[i]).0 == name;
            if i < init.len() {
                assert(init[i] == events[i]);
            }
        }
        if has_event(init, name) {
            let i = choose|i: int| 0 <= i < init.len() && (#[trigger] init[i]).0 == name;
            assert(init[i] == events[i]);
        }
    }
}

/// Law: after a reset no event is found and the dump is empty.
pub proof fn law_reset_forgets(name: Seq<char>)
    ensures
        !has_event(Seq::<EventView>::empty(), name),
        events_named(Seq::<EventView>::empty(), name).len() == 0,
        dump_text(Seq::<EventView>::empty()).len() == 0,
{
}

/// Law: a pause event's fields stay on one line whatever the reason says,
/// and a JSON reader gets the reason back from them.
pub proof fn law_pause_fields_single_line(reason: Seq<char>)
    ensures
        single_line(pause_fields(reason)),
        unescape_text(pause_fields(reason).subrange(11, pause_fields(reason).len() - 2)) == reason,
{
    reveal_strlit("{\"reason\":\"");
    reveal_strlit("\"}");
    law_escape_has_no_control_chars(reason);
    let a = "{\"reason\":\""@;
    let esc = escape_text(reason);
    let f = pause_fields(reason);
    assert forall|i: int| 0 <= i < f.len() implies f[i] != '\n' by {
        if a.len() <= i < a.len() + esc.len() {
            assert(f[i] == esc[i - a.len()]);
            assert((esc[i - a.len()] as u32) >= 0x20);
        }
    }
    assert(f.subrange(11, f.len() - 2) =~= esc);
    law_escape_round_trip(reason);
}

proof fn lemma_single_line_concat(a: Seq<char>, b: Seq<char>)
    requires
        single_line(a),
        single_line(b),
    ensures
        single_line(a + b),
{
    assert forall|i: int| 0 <= i < (a + b).len() implies (a + b)[i] != '\n' by {
        if i >= a.len() {
            assert((a + b)[i] == b[i - a.len()]);
        }
    }
}

proof fn lemma_decimal_digits_single_line(n: nat)
    ensures
        single_line(decimal_digits(n)),
    decreases n,
{
    if n >= 10 {
        lemma_decimal_digits_single_line(n / 10);
        let d = hex_digit(n % 10);
        assert(d != '\n');
        lemma_single_line_concat(decimal_digits(n / 10), seq![d]);
        assert(decimal_digits(n / 10).push(d) =~= decimal_digits(n / 10) + seq![d]);
    }
}

proof fn lemma_decimal_text_single_line(i: int)
    ensures
        single_line(decimal_text(i)),
{
    if i < 0 {
        lemma_decimal_digits_single_line((-i) as nat);
        lemma_single_line_concat(seq!['-'], decimal_digits((-i) as nat));
    } else {
        lemma_decimal_digits_single_line(i as nat);
    }
}

/// Law: the events that the typed helpers record stay on one line, given
/// names and short texts that hold no newline: the marker events have the
/// fields `{}`, and the fields of `initialize`, `set_config` and
/// `calculate_sla` hold a newline only where a text argument holds one,
/// whatever the numbers are. (For `pause` see
/// `law_pause_fields_single_line`.)
pub proof fn law_helper_fields_single_line(
    admin_short: Seq<char>,
    operator_short: Seq<char>,
    severity: Seq<char>,
    status: Seq<char>,
    payment_type: Seq<char>,
    rating: Seq<char>,
    threshold_minutes: int,
    penalty_per_minute: int,
    reward_base: int,
    amount: int,
    mttr_minutes: int,
)
    ensures
        single_line("{}"@),
        single_line(admin_short) && single_line(operator_short) ==> single_line(
            initialize_fields(admin_short, operator_short),
        ),
        single_line(severity) ==> single_line(
            set_config_fields(severity, threshold_minutes, penalty_per_minute, reward_base),
        ),
        single_line(severity) && single_line(status) && single_line(payment_type) && single_line(
            rating,
        ) ==> single_line(
            calculate_sla_fields(
                severity,
                status,
                payment_type,
                rating,
                amount,
                mttr_minutes,
                threshold_minutes,
            ),
        ),
{
    reveal_strlit("{}");
    reveal_strlit("{\"admin\":\"");
    reveal_strlit("\",\"operator\":\"");
    reveal_strlit("\"}");
    reveal_strlit("{\"severity\":\"");
    reveal_strlit("\",\"threshold_minutes\":");
    reveal_strlit(",\"penalty_per_minute\":");
    reveal_strlit(",\"reward_base\":");
    reveal_strlit("}");
    reveal_strlit("\",\"status\":\"");
    reveal_strlit("\",\"payment_type\":\"");
    reveal_strlit("\",\"rating\":\"");
    reveal_strlit("\",\"amount\":");
    reveal_strlit(",\"mttr_minutes\":");
    reveal_strlit(",\"threshold_minutes\":");
    lemma_decimal_text_single_line(threshold_minutes);
    lemma_decimal_text_single_line(penalty_per_minute);
    lemma_decimal_text_single_line(reward_base);
    lemma_decimal_text_single_line(amount);
    lemma_decimal_text_single_line(mttr_minutes);
    assert(single_line("{}"@));
    assert(single_line("{\"admin\":\""@));
    assert(single_line("\",\"operator\":\""@));
    assert(single_line("\"}"@));
    assert(single_line("{\"severity\":\""@));
    assert(single_line("\",\"threshold_minutes\":"@));
    assert(single_line(",\"penalty_per_minute\":"@));
    assert(single_line(",\"reward_base\":"@));
    assert(single_line("}"@));
    assert(single_line("\",\"status\":\""@));
    assert(single_line("\",\"payment_type\":\""@));
    assert(single_line("\",\"rating\":\""@));
    assert(single_line("\",\"amount\":"@));
    assert(single_line(",\"mttr_minutes\":"@));
    assert(single_line(",\"threshold_minutes\":"@));
    if single_line(admin_short) && single_line(operator_short) {
        let a = "{\"admin\":\""@ + admin_short;
        lemma_single_line_concat("{\"admin\":\""@, admin_short);
        lemma_single_line_concat(a, "\",\"operator\":\""@);
        lemma_single_line_concat(a + "\",\"operator\":\""@, operator_short);
        lemma_single_line_concat(a + "\",\"operator\":\""@ + operator_short, "\"}"@);
    }
    if single_line(severity) {
        let p1 = "{\"severity\":\""@ + severity;
        lemma_single_line_concat("{\"severity\":\""@, severity);
        let p2 = p1 + "\",\"threshold_minutes\":"@;
        lemma_single_line_concat(p1, "\",\"threshold_minutes\":"@);
        let p3 = p2 + decimal_text(threshold_minutes);
        lemma_single_line_concat(p2, decimal_text(threshold_minutes));
        let p4 = p3 + ",\"penalty_per_minute\":"@;
        lemma_single_line_concat(p3, ",\"penalty_per_minute\":"@);
        let p5 = p4 + decimal_text(penalty_per_minute);
        lemma_single_line_concat(p4, decimal_text(penalty_per_minute));
        let p6 = p5 + ",\"reward_base\":"@;
        lemma_single_line_concat(p5, ",\"reward_base\":"@);
        let p7 = p6 + decimal_text(reward_base);
        lemma_single_line_concat(p6, decimal_text(reward_base));
        lemma_single_line_concat(p7, "}"@);
    }
    if single_line(severity) && single_line(status) && single_line(payment_type) && single_line(
        rating,
    ) {
        let q1 = "{\"severity\":\""@ + severity;
        lemma_single_line_concat("{\"severity\":\""@, severity);
        let q2 = q1 + "\",\"status\":\""@;
        lemma_single_line_concat(q1, "\",\"status\":\""@);
        let q3 = q2 + status;
        lemma_single_line_concat(q2, status);
        let q4 = q3 + "\",\"payment_type\":\""@;
        lemma_single_line_concat(q3, "\",\"payment_type\":\""@);
        let q5 = q4 + payment_type;
        lemma_single_line_concat(q4, payment_type);
        let q6 = q5 + "\",\"rating\":\""@;
        lemma_single_line_concat(q5, "\",\"rating\":\""@);
        let q7 = q6 + rating;
        lemma_single_line_concat(q6, rating);
        let q8 = q7 + "\",\"amount\":"@;
        lemma_single_line_concat(q7, "\",\"amount\":"@);
        let q9 = q8 + decimal_text(amount);
        lemma_single_line_concat(q8, decimal_text(amount));
        let q10 = q9 + ",\"mttr_minutes\":"@;
        lemma_single_line_concat(q9, ",\"mttr_minutes\":"@);
        let q11 = q10 + decimal_text(mttr_minutes);
        lemma_single_line_concat(q10, decimal_text(mttr_minutes));
        let q12 = q11 + ",\"threshold_minutes\":"@;
        lemma_single_line_concat(q11, ",\"threshold_minutes\":"@);
        let q13 = q12 + decimal_text(threshold_minutes);
        lemma_single_line_concat(q12, decimal_text(threshold_minutes));
        lemma_single_line_concat(q13, "}"@);
    }
}

/// Whether `s` holds no character `x`.
pub open spec fn lacks_char(s: Seq<char>, x: char) -> bool {
    forall|i: int| 0 <= i < s.len() ==> s[i] != x
}

proof fn lemma_strip_prefix(p: Seq<char>, a: Seq<char>, b: Seq<char>)
    requires
        p + a == p + b,
    ensures
        a == b,
{
    assert(a =~= (p + a).subrange(p.len() as int, (p + a).len() as int));
    assert(b =~= (p + b).subrange(p.len() as int, (p + b).len() as int));
}

/// Splits `a1 + lit + r1 == a2 + lit + r2` where neither `a` holds the first
/// character of `lit`.
proof fn lemma_peel(a1: Seq<char>, r1: Seq<char>, a2: Seq<char>, r2: Seq<char>, lit: Seq<char>)
    requires
        lit.len() > 0,
        lacks_char(a1, lit[0]),
        lacks_char(a2, lit[0]),
        a1 + (lit + r1) == a2 + (lit + r2),
    ensures
        a1 == a2,
        r1 == r2,
{
    let t1 = a1 + (lit + r1);
    let t2 = a2 + (lit + r2);
    if a1.len() < a2.len() {
        assert(t1[a1.len() as int] == lit[0]);
        assert(t2[a1.len() as int] == a2[a1.len() as int]);
    } else if a2.len() < a1.len() {
        assert(t2[a2.len() as int] == lit[0]);
        assert(t1[a2.len() as int] == a1[a2.len() as int]);
    }
    assert(a1 =~= t1.subrange(0, a1.len() as int));
    assert(a2 =~= t2.subrange(0, a2.len() as int));
    lemma_strip_prefix(a1, lit + r1, lit + r2);
    lemma_strip_prefix(lit, r1, r2);
}

proof fn lemma_decimal_lacks(i: int)
    ensures
        lacks_char(decimal_text(i), ','),
        lacks_char(decimal_text(i), '}'),
{
    law_decimal_text_chars(i);
    assert forall|k: int| 0 <= k < decimal_text(i).len() implies decimal_text(i)[k] != ','
        && decimal_text(i)[k] != '}' by {
        assert(crate::json_text::decimal_char(decimal_text(i)[k]));
    }
}

/// Law: a JSON line holds the event's name and its whole fields text: the
/// name right after `{"event":"`, the fields right after `","fields":`,
/// with nothing cut and a single `}` after them.
pub proof fn law_jsonl_line_holds_name_and_fields(name: Seq<char>, json: Seq<char>)
    ensures
        jsonl_line(name, json).len() == name.len() + json.len() + 22,
        jsonl_line(name, json).subrange(10, 10 + name.len() as int) == name,
        jsonl_line(name, json).subrange(name.len() + 21int, name.len() + 21 + json.len() as int) == json,
{
    reveal_strlit("{\"event\":\"");
    reveal_strlit("\",\"fields\":");
    reveal_strlit("}");
    let line = jsonl_line(name, json);
    assert(line.subrange(10, 10 + name.len() as int) =~= name);
    assert(line.subrange(name.len() + 21int, name.len() + 21 + json.len() as int) =~= json);
}

/// Law: the dump only grows at its end: the dump of a log is the start of
/// the dump of any longer log with the same first events.
pub proof fn law_dump_extends(events: Seq<EventView>, more: Seq<EventView>)
    ensures
        dump_text(events).len() <= dump_text(events + more).len(),
        dump_text(events + more).subrange(0, dump_text(events).len() as int) == dump_text(events),
    decreases more.len(),
{
    if more.len() == 0 {
        assert(events + more =~= events);
        assert(dump_text(events).subrange(0, dump_text(events).len() as int) =~= dump_text(events));
    } else {
        law_dump_extends(events, more.drop_last());
        let all = events + more;
        assert(all.drop_last() =~= events + more.drop_last());
        let prev = dump_text(events + more.drop_last());
        let d = dump_text(all);
        assert(d == prev + jsonl_line(all.last().0, all.last().1) + seq!['\n']);
        assert(d.subrange(0, dump_text(events).len() as int) =~= prev.subrange(
            0,
            dump_text(events).len() as int,
        ));
    }
}

/// Law: the severity given to `record_set_config` stands in its fields
/// right after `{"severity":"`.
pub proof fn law_set_config_fields_hold_severity(
    severity: Seq<char>,
    threshold_minutes: int,
    penalty_per_minute: int,
    reward_base: int,
)
    ensures
        set_config_fields(severity, threshold_minutes, penalty_per_minute, reward_base).subrange(
            13,
            13 + severity.len() as int,
        ) == severity,
{
    reveal_strlit("{\"severity\":\"");
    let f = set_config_fields(severity, threshold_minutes, penalty_per_minute, reward_base);
    assert(f.subrange(13, 13 + severity.len() as int) =~= severity);
}

/// Law: the fields of a `set_config` event record every argument: two
/// calls whose severities hold no `"` give the same fields only when they
/// had the same severity, threshold, penalty and reward.
#[verifier::rlimit(60)]
pub proof fn law_set_config_fields_record_arguments(
    s1: Seq<char>,
    t1: int,
    p1: int,
    r1: int,
    s2: Seq<char>,
    t2: int,
    p2: int,
    r2: int,
)
    requires
        lacks_char(s1, '"'),
        lacks_char(s2, '"'),
        set_config_fields(s1, t1, p1, r1) == set_config_fields(s2, t2, p2, r2),
    ensures
        s1 == s2,
        t1 == t2,
        p1 == p2,
        r1 == r2,
{
    let l1 = "{\"severity\":\""@;
    let l2 = "\",\"threshold_minutes\":"@;
    let l3 = ",\"penalty_per_minute\":"@;
    let l4 = ",\"reward_base\":"@;
    let l5 = "}"@;
    reveal_strlit("\",\"threshold_minutes\":");
    reveal_strlit(",\"penalty_per_minute\":");
    reveal_strlit(",\"reward_base\":");
    reveal_strlit("}");
    lemma_decimal_lacks(t1);
    lemma_decimal_lacks(t2);
    lemma_decimal_lacks(p1);
    lemma_decimal_lacks(p2);
    lemma_decimal_lacks(r1);
    lemma_decimal_lacks(r2);
    let e: Seq<char> = Seq::empty();
    let tail1 = l4 + (decimal_text(r1) + (l5 + e));
    let tail2 = l4 + (decimal_text(r2) + (l5 + e));
    let mid1 = l3 + (decimal_text(p1) + tail1);
    let mid2 = l3 + (decimal_text(p2) + tail2);
    let rest1 = l2 + (decimal_text(t1) + mid1);
    let rest2 = l2 + (decimal_text(t2) + mid2);
    assert(set_config_fields(s1, t1, p1, r1) =~= l1 + (s1 + rest1));
    assert(set_config_fields(s2, t2, p2, r2) =~= l1 + (s2 + rest2));
    lemma_strip_prefix(l1, s1 + rest1, s2 + rest2);
    lemma_peel(s1, decimal_text(t1) + mid1, s2, decimal_text(t2) + mid2, l2);
    lemma_peel(decimal_text(t1), decimal_text(p1) + tail1, decimal_text(t2), decimal_text(p2) + tail2, l3);
    lemma_peel(decimal_text(p1), decimal_text(r1) + (l5 + e), decimal_text(p2), decimal_text(r2) + (l5 + e), l4);
    lemma_peel(decimal_text(r1), e, decimal_text(r2), e, l5);
    law_decimal_text_injective(t1, t2);
    law_decimal_text_injective(p1, p2);
    law_decimal_text_injective(r1, r2);
}

proof fn lemma_calculate_sla_literals()
    ensures
        "\",\"status\":\""@.len() > 0 && "\",\"status\":\""@[0] == '"',
        "\",\"payment_type\":\""@.len() > 0 && "\",\"payment_type\":\""@[0] == '"',
        "\",\"rating\":\""@.len() > 0 && "\",\"rating\":\""@[0] == '"',
        "\",\"amount\":"@.len() > 0 && "\",\"amount\":"@[0] == '"',
        ",\"mttr_minutes\":"@.len() > 0 && ",\"mttr_minutes\":"@[0] == ',',
        ",\"threshold_minutes\":"@.len() > 0 && ",\"threshold_minutes\":"@[0] == ',',
        "}"@.len() > 0 && "}"@[0] == '}',
{
    reveal_strlit("\",\"status\":\"");
    reveal_strlit("\",\"payment_type\":\"");
    reveal_strlit("\",\"rating\":\"");
    reveal_strlit("\",\"amount\":");
    reveal_strlit(",\"mttr_minutes\":");
    reveal_strlit(",\"threshold_minutes\":");
    reveal_strlit("}");
}

/// The end of `calculate_sla` fields from the amount on, grouped from the right.
spec fn calculate_sla_numbers(amount: int, mttr_minutes: int, threshold_minutes: int) -> Seq<char> {
    let e = Seq::<char>::empty();
    let x7 = decimal_text(threshold_minutes) + ("}"@ + e);
    let x6 = decimal_text(mttr_minutes) + (",\"threshold_minutes\":"@ + x7);
    decimal_text(amount) + (",\"mttr_minutes\":"@ + x6)
}

/// The `calculate_sla` fields after `{"severity":"`, grouped from the right.
spec fn calculate_sla_texts(
    severity: Seq<char>,
    status: Seq<char>,
    payment_type: Seq<char>,
    rating: Seq<char>,
    numbers: Seq<char>,
) -> Seq<char> {
    let x4 = rating + ("\",\"amount\":"@ + numbers);
    let x3 = payment_type + ("\",\"rating\":\""@ + x4);
    let x2 = status + ("\",\"payment_type\":\""@ + x3);
    severity + ("\",\"status\":\""@ + x2)
}

#[verifier::rlimit(60)]
proof fn lemma_calculate_sla_fields_grouped(
    severity: Seq<char>,
    status: Seq<char>,
    payment_type: Seq<char>,
    rating: Seq<char>,
    amount: int,
    mttr_minutes: int,
    threshold_minutes: int,
)
    ensures
        calculate_sla_fields(severity, status, payment_type, rating, amount, mttr_minutes, threshold_minutes)
            == "{\"severity\":\""@ + calculate_sla_texts(
            severity,
            status,
            payment_type,
            rating,
            calculate_sla_numbers(amount, mttr_minutes, threshold_minutes),
        ),
{
    assert(calculate_sla_fields(severity, status, payment_type, rating, amount, mttr_minutes, threshold_minutes)
        =~= "{\"severity\":\""@ + calculate_sla_texts(
        severity,
        status,
        payment_type,
        rating,
        calculate_sla_numbers(amount, mttr_minutes, threshold_minutes),
    ));
}

proof fn lemma_calculate_sla_numbers_injective(n: (int, int, int), m: (int, int, int))
    requires
        calculate_sla_numbers(n.0, n.1, n.2) == calculate_sla_numbers(m.0, m.1, m.2),
    ensures
        n == m,
{
    lemma_calculate_sla_literals();
    let l6 = ",\"mttr_minutes\":"@;
    let l7 = ",\"threshold_minutes\":"@;
    let l8 = "}"@;
    lemma_decimal_lacks(n.0);
    lemma_decimal_lacks(n.1);
    lemma_decimal_lacks(n.2);
    lemma_decimal_lacks(m.0);
    lemma_decimal_lacks(m.1);
    lemma_decimal_lacks(m.2);
    let e: Seq<char> = Seq::empty();
    let x7 = decimal_text(n.2) + (l8 + e);
    let y7 = decimal_text(m.2) + (l8 + e);
    let x6 = decimal_text(n.1) + (l7 + x7);
    let y6 = decimal_text(m.1) + (l7 + y7);
    lemma_peel(decimal_text(n.0), x6, decimal_text(m.0), y6, l6);
    lemma_peel(decimal_text(n.1), x7, decimal_text(m.1), y7, l7);
    lemma_peel(decimal_text(n.2), e, decimal_text(m.2), e, l8);
    law_decimal_text_injective(n.0, m.0);
    law_decimal_text_injective(n.1, m.1);
    law_decimal_text_injective(n.2, m.2);
}

proof fn lemma_calculate_sla_texts_injective(
    a: (Seq<char>, Seq<char>, Seq<char>, Seq<char>),
    x: Seq<char>,
    b: (Seq<char>, Seq<char>, Seq<char>, Seq<char>),
    y: Seq<char>,
)
    requires
        lacks_char(a.0, '"') && lacks_char(a.1, '"') && lacks_char(a.2, '"') && lacks_char(a.3, '"'),
        lacks_char(b.0, '"') && lacks_char(b.1, '"') && lacks_char(b.2, '"') && lacks_char(b.3, '"'),
        calculate_sla_texts(a.0, a.1, a.2, a.3, x) == calculate_sla_texts(b.0, b.1, b.2, b.3, y),
    ensures
        a == b,
        x == y,
{
    lemma_calculate_sla_literals();
    let l2 = "\",\"status\":\""@;
    let l3 = "\",\"payment_type\":\""@;
    let l4 = "\",\"rating\":\""@;
    let l5 = "\",\"amount\":"@;
    let x4 = a.3 + (l5 + x);
    let y4 = b.3 + (l5 + y);
    let x3 = a.2 + (l4 + x4);
    let y3 = b.2 + (l4 + y4);
    let x2 = a.1 + (l3 + x3);
    let y2 = b.1 + (l3 + y3);
    lemma_peel(a.0, x2, b.0, y2, l2);
    lemma_peel(a.1, x3, b.1, y3, l3);
    lemma_peel(a.2, x4, b.2, y4, l4);
    lemma_peel(a.3, x, b.3, y, l5);
}

/// Law: the fields of a `calculate_sla` event record every argument: two
/// calls whose severity, status, payment type and rating hold no `"` give
/// the same fields only when all their arguments were the same.
pub proof fn law_calculate_sla_fields_record_arguments(
    a: (Seq<char>, Seq<char>, Seq<char>, Seq<char>),
    n: (int, int, int),
    b: (Seq<char>, Seq<char>, Seq<char>, Seq<char>),
    m: (int, int, int),
)
    requires
        lacks_char(a.0, '"') && lacks_char(a.1, '"') && lacks_char(a.2, '"') && lacks_char(a.3, '"'),
        lacks_char(b.0, '"') && lacks_char(b.1, '"') && lacks_char(b.2, '"') && lacks_char(b.3, '"'),
        calculate_sla_fields(a.0, a.1, a.2, a.3, n.0, n.1, n.2) == calculate_sla_fields(
            b.0,
            b.1,
            b.2,
            b.3,
            m.0,
            m.1,
            m.2,
        ),
    ensures
        a == b,
        n == m,
{
    lemma_calculate_sla_fields_grouped(a.0, a.1, a.2, a.3, n.0, n.1, n.2);
    lemma_calculate_sla_fields_grouped(b.0, b.1, b.2, b.3, m.0, m.1, m.2);
    let x = calculate_sla_numbers(n.0, n.1, n.2);
    let y = calculate_sla_numbers(m.0, m.1, m.2);
    lemma_strip_prefix(
        "{\"severity\":\""@,
        calculate_sla_texts(a.0, a.1, a.2, a.3, x),
        calculate_sla_texts(b.0, b.1, b.2, b.3, y),
    );
    lemma_calculate_sla_texts_injective(a, x, b, y);
    lemma_calculate_sla_numbers_injective(n, m);
}

/// Law: the fields of an `initialize` event record both short names: two
/// calls whose names hold no `"` give the same fields only when they had
/// the same admin and operator names.
pub proof fn law_initialize_fields_record_arguments(
    admin1: Seq<char>,
    operator1: Seq<char>,
    admin2: Seq<char>,
    operator2: Seq<char>,
)
    requires
        lacks_char(admin1, '"') && lacks_char(operator1, '"'),
        lacks_char(admin2, '"') && lacks_char(operator2, '"'),
        initialize_fields(admin1, operator1) == initialize_fields(admin2, operator2),
    ensures
        admin1 == admin2,
        operator1 == operator2,
{
    let l1 = "{\"admin\":\""@;
    let l2 = "\",\"operator\":\""@;
    let l3 = "\"}"@;
    reveal_strlit("\",\"operator\":\"");
    reveal_strlit("\"}");
    let e: Seq<char> = Seq::empty();
    let x = operator1 + (l3 + e);
    let y = operator2 + (l3 + e);
    assert(initialize_fields(admin1, operator1) =~= l1 + (admin1 + (l2 + x)));
    assert(initialize_fields(admin2, operator2) =~= l1 + (admin2 + (l2 + y)));
    lemma_strip_prefix(l1, admin1 + (l2 + x), admin2 + (l2 + y));
    lemma_peel(admin1, x, admin2, y, l2);
    lemma_peel(operator1, e, operator2, e, l3);
}

/// Law: finding events by name keeps exactly the recorded events with that
/// name, in recorded order: it is the filter of the log by name, it splits
/// over any two stretches of the log, and an event with another name
/// changes nothing found.
pub proof fn law_find_events_is_filter(
    events: Seq<EventView>,
    more: Seq<EventView>,
    name: Seq<char>,
    other: Seq<char>,
    json: Seq<char>,
)
    ensures
        events_named(events, name) == events.filter(|e: EventView| e.0 == name),
        events_named(events + more, name) == events_named(events, name) + events_named(more, name),
        other != name ==> events_named(events.push((other, json)), name) == events_named(events, name),
{
    lemma_events_named_filter(events, name);
    lemma_events_named_split(events, more, name);
    assert(events.push((other, json)).drop_last() =~= events);
}

proof fn lemma_events_named_filter(events: Seq<EventView>, name: Seq<char>)
    ensures
        events_named(events, name) == events.filter(|e: EventView| e.0 == name),
    decreases events.len(),
{
    reveal(Seq::filter);
    if events.len() > 0 {
        lemma_events_named_filter(events.drop_last(), name);
    }
}

proof fn lemma_events_named_split(events: Seq<EventView>, more: Seq<EventView>, name: Seq<char>)
    ensures
        events_named(events + more, name) == events_named(events, name) + events_named(more, name),
    decreases more.len(),
{
    if more.len() == 0 {
        assert(events + more =~= events);
        assert(events_named(events, name) + events_named(more, name) =~= events_named(events, name));
    } else {
        lemma_events_named_split(events, more.drop_last(), name);
        assert((events + more).drop_last() =~= events + more.drop_last());
        assert((events + more).last() == more.last());
        if more.last().0 == name {
            assert(events_named(events, name) + events_named(more.drop_last(), name).push(more.last())
                =~= (events_named(events, name) + events_named(more.drop_last(), name)).push(more.last()));
        }
    }
}

} // verus!
