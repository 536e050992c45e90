//! Log records, and the declarative filter applied to them: level list, time
//! window, message search, structural filter, projection and ordering.

use vstd::prelude::*;

use crate::json::{json_view, json_view_fields, lemma_json_view_fields, lookup_fields, obj_lookup,
    JsonValue, SpecJson};
use crate::query_node::{qnode_view, QueryNode, SpecQueryNode};
use crate::regex_support::{regex_is_match, regex_match, regex_pattern_valid, regex_valid};
use crate::strings::{push_char, str_eq};
use crate::time::{now_millis, parse_free_datetime, parse_rfc3339, rfc3339_millis_of};

verus! {

/// Mathematical model of a log record.
pub struct SpecRecord {
    pub level: Seq<char>,
    pub message: Seq<char>,
    pub meta: Seq<(Seq<char>, SpecJson)>,
}

/// One structured log entry: a level, a message, and named metadata.
#[derive(Debug)]
pub struct LogRecord {
    pub level: String,
    pub message: String,
    pub meta: Vec<(String, JsonValue)>,
}

impl View for LogRecord {
    type V = SpecRecord;

    open spec fn view(&self) -> SpecRecord {
        SpecRecord {
            level: self.level@,
            message: self.message@,
            meta: json_view_fields(self.meta@),
        }
    }
}

pub open spec fn level_key() -> Seq<char> {
    seq!['l', 'e', 'v', 'e', 'l']
}

pub open spec fn message_key() -> Seq<char> {
    seq!['m', 'e', 's', 's', 'a', 'g', 'e']
}

pub open spec fn meta_key() -> Seq<char> {
    seq!['m', 'e', 't', 'a']
}

pub open spec fn timestamp_key() -> Seq<char> {
    seq!['t', 'i', 'm', 'e', 's', 't', 'a', 'm', 'p']
}

/// The JSON tree a record projects to: level, message, and the metadata
/// object under its own key.
pub open spec fn spec_record_value(rec: SpecRecord) -> SpecJson {
    SpecJson::Obj(
        seq![
            (level_key(), SpecJson::Str(rec.level)),
            (message_key(), SpecJson::Str(rec.message)),
            (meta_key(), SpecJson::Obj(rec.meta)),
        ],
    )
}

/// The record's instant: the `timestamp` metadata value, when it is a string
/// holding a valid RFC 3339 timestamp.
pub open spec fn spec_record_timestamp(rec: SpecRecord) -> Option<i64> {
    match obj_lookup(rec.meta, timestamp_key()) {
        Some(SpecJson::Str(s)) => rfc3339_millis_of(s),
        _ => None,
    }
}

impl LogRecord {
    /// A record with the given level and message and no metadata.
    pub fn new(level: &str, message: &str) -> (r: LogRecord)
        ensures
            r@.level == level@,
            r@.message == message@,
            r@.meta.len() == 0,
    {
        LogRecord {
            level: String::from_str(level),
            message: String::from_str(message),
            meta: Vec::new(),
        }
    }

    /// The record with one more metadata pair appended.
    pub fn with_meta(self, key: &str, value: JsonValue) -> (r: LogRecord)
        ensures
            r@.level == self@.level,
            r@.message == self@.message,
            r@.meta =~= self@.meta.push((key@, value@)),
    {
        let mut s = self;
        let ghost old_meta = s.meta@;
        s.meta.push((String::from_str(key), value));
        proof {
            lemma_json_view_fields(s.meta@);
            lemma_json_view_fields(old_meta);
            assert(json_view_fields(s.meta@) =~= json_view_fields(old_meta).push(
                (key@, json_view(value)),
            ));
        }
        s
    }

    /// The record as a JSON tree, for structural filters.
    pub fn to_value(&self) -> (r: JsonValue)
        ensures
            r@ == spec_record_value(self@),
    {
        proof {
            reveal_strlit("level");
            reveal_strlit("message");
            reveal_strlit("meta");
            assert("level"@ =~= level_key());
            assert("message"@ =~= message_key());
            assert("meta"@ =~= meta_key());
        }
        let mut meta_copy: Vec<(String, JsonValue)> = Vec::new();
        let mut i: usize = 0;
        while i < self.meta.len()
            invariant
                i <= self.meta.len(),
                meta_copy@.len() == i,
                forall|j: int| 0 <= j < i ==> meta_copy@[j].0@ == self.meta@[j].0@
                    && meta_copy@[j].1@ == self.meta@[j].1@,
            decreases self.meta.len() - i,
        {
            let copied = self.meta[i].1.deep_copy();
            meta_copy.push((self.meta[i].0.clone(), copied));
            i = i + 1;
        }
        proof {
            lemma_json_view_fields(meta_copy@);
            lemma_json_view_fields(self.meta@);
            assert(json_view_fields(meta_copy@) =~= json_view_fields(self.meta@));
        }
        let mut fields: Vec<(String, JsonValue)> = Vec::new();
        fields.push((String::from_str("level"), JsonValue::Str(self.level.clone())));
        fields.push((String::from_str("message"), JsonValue::Str(self.message.clone())));
        fields.push((String::from_str("meta"), JsonValue::Obj(meta_copy)));
        let r = JsonValue::Obj(fields);
        proof {
            lemma_json_view_fields(r->Obj_0@);
            assert(json_view_fields(r->Obj_0@) =~= spec_record_value(self@)->Obj_0);
        }
        r
    }
}

/// Result order for queried records.
#[derive(Debug, Clone, Copy, PartialEq, Eq, Structural)]
pub enum Order {
    Ascending,
    Descending,
}

impl Order {
    /// Read an order from its name, in any ASCII case: `asc`, `ascending`,
    /// `desc`, `descending`.
    pub fn from_str(input: &str) -> (r: Result<Order, String>)
        ensures
            match r {
                Ok(o) => spec_order_of(input@) == Some(o),
                Err(e) => spec_order_of(input@) is None && e@ == seq![
                    'I', 'n', 'v', 'a', 'l', 'i', 'd', ' ', 'o', 'r', 'd', 'e', 'r', ':', ' ',
                ] + input@,
            },
    {
        proof {
            reveal_strlit("asc");
            reveal_strlit("ascending");
            reveal_strlit("desc");
            reveal_strlit("descending");
            assert("asc"@ =~= seq!['a', 's', 'c']);
            assert("ascending"@ =~= seq!['a', 's', 'c', 'e', 'n', 'd', 'i', 'n', 'g']);
            assert("desc"@ =~= seq!['d', 'e', 's', 'c']);
            assert("descending"@ =~= seq!['d', 'e', 's', 'c', 'e', 'n', 'd', 'i', 'n', 'g']);
        }
        let lower = ascii_lower(input);
        if str_eq(lower.as_str(), "asc") || str_eq(lower.as_str(), "ascending") {
            Ok(Order::Ascending)
        } else if str_eq(lower.as_str(), "desc") || str_eq(lower.as_str(), "descending") {
            Ok(Order::Descending)
        } else {
            proof {
                reveal_strlit("Invalid order: ");
                assert("Invalid order: "@ =~= seq![
                    'I', 'n', 'v', 'a', 'l', 'i', 'd', ' ', 'o', 'r', 'd', 'e', 'r', ':', ' ',
                ]);
            }
            Err(String::from_str("Invalid order: ").concat(input))
        }
    }
}

/// The order a signed number denotes: one is ascending, all else descending.
pub open spec fn spec_order_of_num(n: int) -> Order {
    if n == 1 {
        Order::Ascending
    } else {
        Order::Descending
    }
}

impl From<i32> for Order {
    fn from(n: i32) -> (r: Order) {
        if n == 1 {
            Order::Ascending
        } else {
            Order::Descending
        }
    }
}

impl vstd::std_specs::convert::FromSpecImpl<i32> for Order {
    open spec fn obeys_from_spec() -> bool {
        true
    }

    open spec fn from_spec(n: i32) -> Order {
        spec_order_of_num(n as int)
    }
}

impl From<i64> for Order {
    fn from(n: i64) -> (r: Order) {
        if n == 1 {
            Order::Ascending
        } else {
            Order::Descending
        }
    }
}

impl vstd::std_specs::convert::FromSpecImpl<i64> for Order {
    open spec fn obeys_from_spec() -> bool {
        true
    }

    open spec fn from_spec(n: i64) -> Order {
        spec_order_of_num(n as int)
    }
}

impl From<i8> for Order {
    fn from(n: i8) -> (r: Order) {
        if n == 1 {
            Order::Ascending
        } else {
            Order::Descending
        }
    }
}

impl vstd::std_specs::convert::FromSpecImpl<i8> for Order {
    open spec fn obeys_from_spec() -> bool {
        true
    }

    open spec fn from_spec(n: i8) -> Order {
        spec_order_of_num(n as int)
    }
}

impl From<i16> for Order {
    fn from(n: i16) -> (r: Order) {
        if n == 1 {
            Order::Ascending
        } else {
            Order::Descending
        }
    }
}

impl vstd::std_specs::convert::FromSpecImpl<i16> for Order {
    open spec fn obeys_from_spec() -> bool {
        true
    }

    open spec fn from_spec(n: i16) -> Order {
        spec_order_of_num(n as int)
    }
}

impl From<i128> for Order {
    fn from(n: i128) -> (r: Order) {
        if n == 1 {
            Order::Ascending
        } else {
            Order::Descending
        }
    }
}

impl vstd::std_specs::convert::FromSpecImpl<i128> for Order {
    open spec fn obeys_from_spec() -> bool {
        true
    }

    open spec fn from_spec(n: i128) -> Order {
        spec_order_of_num(n as int)
    }
}

impl From<isize> for Order {
    fn from(n: isize) -> (r: Order) {
        if n == 1 {
            Order::Ascending
        } else {
            Order::Descending
        }
    }
}

impl vstd::std_specs::convert::FromSpecImpl<isize> for Order {
    open spec fn obeys_from_spec() -> bool {
        true
    }

    open spec fn from_spec(n: isize) -> Order {
        spec_order_of_num(n as int)
    }
}

impl From<&str> for Order {
    /// A name that does not parse falls back to descending.
    fn from(s: &str) -> (r: Order) {
        match Order::from_str(s) {
            Ok(o) => o,
            Err(_) => Order::Descending,
        }
    }
}

impl vstd::std_specs::convert::FromSpecImpl<&str> for Order {
    open spec fn obeys_from_spec() -> bool {
        true
    }

    open spec fn from_spec(s: &str) -> Order {
        match spec_order_of(s@) {
            Some(o) => o,
            None => Order::Descending,
        }
    }
}

impl From<String> for Order {
    /// A name that does not parse falls back to descending.
    fn from(s: String) -> (r: Order) {
        match Order::from_str(s.as_str()) {
            Ok(o) => o,
            Err(_) => Order::Descending,
        }
    }
}

impl vstd::std_specs::convert::FromSpecImpl<String> for Order {
    open spec fn obeys_from_spec() -> bool {
        true
    }

    open spec fn from_spec(s: String) -> Order {
        match spec_order_of(s@) {
            Some(o) => o,
            None => Order::Descending,
        }
    }
}

/// ASCII-lowercased characters.
pub open spec fn spec_ascii_lower(s: Seq<char>) -> Seq<char> {
    Seq::new(s.len(), |i: int| lower_char(s[i]))
}

pub open spec fn lower_char(c: char) -> char {
    if 65 <= c as u32 <= 90 {
        ((c as u32 + 32) as u8) as char
    } else {
        c
    }
}

/// The order a name denotes, after ASCII lowercasing.
pub open spec fn spec_order_of(s: Seq<char>) -> Option<Order> {
    let l = spec_ascii_lower(s);
    if l == seq!['a', 's', 'c'] || l == seq!['a', 's', 'c', 'e', 'n', 'd', 'i', 'n', 'g'] {
        Some(Order::Ascending)
    } else if l == seq!['d', 'e', 's', 'c'] || l == seq![
        'd', 'e', 's', 'c', 'e', 'n', 'd', 'i', 'n', 'g',
    ] {
        Some(Order::Descending)
    } else {
        None
    }
}

/// ASCII lowercase of a string.
fn ascii_lower(s: &str) -> (r: String)
    ensures
        r@ == spec_ascii_lower(s@),
{
    let len = s.unicode_len();
    let mut out = String::new();
    let mut i: usize = 0;
    while i < len
        invariant
            len == s@.len(),
            i <= len,
            out@ =~= spec_ascii_lower(s@).take(i as int),
        decreases len - i,
    {
        let c = s.get_char(i);
        let cu = c as u32;
        let lc = if 65 <= cu && cu <= 90 {
            ((cu + 32) as u8) as char
        } else {
            c
        };
        push_char(&mut out, lc);
        i = i + 1;
    }
    proof {
        assert(spec_ascii_lower(s@).take(len as int) =~= spec_ascii_lower(s@));
    }
    out
}

/// Mathematical model of a query.
pub struct SpecLogQuery {
    pub from: Option<i64>,
    pub until: Option<i64>,
    pub limit: Option<usize>,
    pub start: Option<usize>,
    pub order: Order,
    pub levels: Seq<Seq<char>>,
    pub fields: Seq<Seq<char>>,
    pub search_term: Option<Seq<char>>,
    pub filter: Option<SpecQueryNode>,
}

/// A declarative record filter: an optional time window in epoch
/// milliseconds, pagination bounds, an order, accepted levels, projected
/// fields, a message search pattern, and a structural filter.
#[derive(Debug)]
pub struct LogQuery {
    pub from: Option<i64>,
    pub until: Option<i64>,
    pub limit: Option<usize>,
    pub start: Option<usize>,
    pub order: Order,
    pub levels: Vec<String>,
    pub fields: Vec<String>,
    pub search_term: Option<String>,
    pub filter: Option<QueryNode>,
}

impl View for LogQuery {
    type V = SpecLogQuery;

    open spec fn view(&self) -> SpecLogQuery {
        SpecLogQuery {
            from: self.from,
            until: self.until,
            limit: self.limit,
            start: self.start,
            order: self.order,
            levels: Seq::new(self.levels@.len(), |i: int| self.levels@[i]@),
            fields: Seq::new(self.fields@.len(), |i: int| self.fields@[i]@),
            search_term: match self.search_term {
                Some(p) => Some(p@),
                None => None,
            },
            filter: match self.filter {
                Some(n) => Some(qnode_view(n)),
                None => None,
            },
        }
    }
}

/// Whether a record passes a query: its level is listed (an empty list
/// admits all), its timestamp lies in the window (a bounded window rejects a
/// record without a valid timestamp), its message matches the search
/// pattern, and its tree satisfies the structural filter.
pub open spec fn spec_matches(q: SpecLogQuery, rec: SpecRecord) -> bool {
    &&& (q.levels.len() == 0 || q.levels.contains(rec.level))
    &&& match q.from {
        Some(f) => match spec_record_timestamp(rec) {
            Some(ts) => ts >= f,
            None => false,
        },
        None => true,
    }
    &&& match q.until {
        Some(u) => match spec_record_timestamp(rec) {
            Some(ts) => ts <= u,
            None => false,
        },
        None => true,
    }
    &&& match q.search_term {
        Some(p) => regex_match(p, rec.message),
        None => true,
    }
    &&& match q.filter {
        Some(n) => crate::query_node::spec_eval_query_node(n, spec_record_value(rec)),
        None => true,
    }
}

/// The record's timestamp, parsed from its metadata.
pub fn extract_timestamp(entry: &LogRecord) -> (r: Option<i64>)
    ensures
        r == spec_record_timestamp(entry@),
{
    proof {
        reveal_strlit("timestamp");
        assert("timestamp"@ =~= timestamp_key());
    }
    match lookup_fields(&entry.meta, "timestamp") {
        Some(v) => match v {
            JsonValue::Str(s) => match parse_rfc3339(s.as_str()) {
                Some(inst) => Some(inst.millis),
                None => None,
            },
            _ => None,
        },
        None => None,
    }
}

impl LogQuery {
    /// A query over the last day: fifty records from the newest end.
    pub fn new() -> (r: LogQuery)
        ensures
            r@.limit == Some(50usize),
            r@.start == Some(0usize),
            r@.order == Order::Descending,
            r@.levels.len() == 0,
            r@.fields.len() == 0,
            r@.search_term is None,
            r@.filter is None,
            r@.from is Some,
            r@.until is Some,
            r@.from->0 <= r@.until->0,
            r@.until->0 - r@.from->0 == 86400000 || r@.from->0 == i64::MIN,
    {
        let now = now_millis();
        let day_ago = match now.checked_sub(86400000) {
            Some(v) => v,
            None => i64::MIN,
        };
        LogQuery {
            from: Some(day_ago),
            until: Some(now),
            limit: Some(50),
            start: Some(0),
            order: Order::Descending,
            levels: Vec::new(),
            fields: Vec::new(),
            search_term: None,
            filter: None,
        }
    }

    /// Lower bound from a free-form time phrase; the phrase resolves against
    /// the clock, so only the other fields are pinned.
    pub fn from(self, from: &str) -> (r: LogQuery)
        ensures
            r.until == self.until,
            r.limit == self.limit,
            r.start == self.start,
            r.order == self.order,
            r.levels == self.levels,
            r.fields == self.fields,
            r.search_term == self.search_term,
            r.filter == self.filter,
    {
        let mut s = self;
        s.from = parse_free_datetime(from);
        s
    }

    /// Upper bound from a free-form time phrase.
    pub fn until(self, until: &str) -> (r: LogQuery)
        ensures
            r.from == self.from,
            r.limit == self.limit,
            r.start == self.start,
            r.order == self.order,
            r.levels == self.levels,
            r.fields == self.fields,
            r.search_term == self.search_term,
            r.filter == self.filter,
    {
        let mut s = self;
        s.until = parse_free_datetime(until);
        s
    }

    /// Lower bound as epoch milliseconds.
    pub fn from_instant(self, from: Option<i64>) -> (r: LogQuery)
        ensures
            r == (LogQuery { from, ..self }),
    {
        let mut s = self;
        s.from = from;
        s
    }

    /// Upper bound as epoch milliseconds.
    pub fn until_instant(self, until: Option<i64>) -> (r: LogQuery)
        ensures
            r == (LogQuery { until, ..self }),
    {
        let mut s = self;
        s.until = until;
        s
    }

    /// Replace the page size.
    pub fn limit(self, limit: usize) -> (r: LogQuery)
        ensures
            r == (LogQuery { limit: Some(limit), ..self }),
    {
        let mut s = self;
        s.limit = Some(limit);
        s
    }

    /// Replace the page offset.
    pub fn start(self, start: usize) -> (r: LogQuery)
        ensures
            r == (LogQuery { start: Some(start), ..self }),
    {
        let mut s = self;
        s.start = Some(start);
        s
    }

    /// Replace the result order.
    pub fn order(self, order: Order) -> (r: LogQuery)
        ensures
            r == (LogQuery { order, ..self }),
    {
        let mut s = self;
        s.order = order;
        s
    }

    /// Replace the accepted levels.
    pub fn levels(self, levels: Vec<String>) -> (r: LogQuery)
        ensures
            r == (LogQuery { levels, ..self }),
    {
        let mut s = self;
        s.levels = levels;
        s
    }

    /// Replace the projected fields.
    pub fn fields(self, fields: Vec<String>) -> (r: LogQuery)
        ensures
            r == (LogQuery { fields, ..self }),
    {
        let mut s = self;
        s.fields = fields;
        s
    }

    /// Replace the message search pattern. A pattern the regex engine
    /// rejects is returned as an error; the query is handed back unchanged
    /// for the caller to fix the input.
    pub fn search_term(self, search_term: &str) -> (r: Result<LogQuery, String>)
        ensures
            match r {
                Ok(q) => regex_valid(search_term@) && q@.search_term == Some(search_term@)
                    && q.from == self.from && q.until == self.until && q.limit == self.limit
                    && q.start == self.start && q.order == self.order && q.levels == self.levels
                    && q.fields == self.fields && q.filter == self.filter,
                Err(_) => !regex_valid(search_term@),
            },
    {
        if regex_pattern_valid(search_term) {
            let mut s = self;
            s.search_term = Some(String::from_str(search_term));
            Ok(s)
        } else {
            Err(String::from_str("invalid search pattern: ").concat(search_term))
        }
    }

    /// Replace the structural filter.
    pub fn filter(self, filter: QueryNode) -> (r: LogQuery)
        ensures
            r.filter == Some(filter),
            r.from == self.from,
            r.until == self.until,
            r.limit == self.limit,
            r.start == self.start,
            r.order == self.order,
            r.levels == self.levels,
            r.fields == self.fields,
            r.search_term == self.search_term,
    {
        let mut s = self;
        s.filter = Some(filter);
        s
    }

    /// Whether a record passes this query. The answer depends on the query
    /// and the record alone.
    pub fn matches(&self, entry: &LogRecord) -> (r: bool)
        ensures
            r == spec_matches(self@, entry@),
    {
        if self.levels.len() > 0 {
            let mut found = false;
            let mut i: usize = 0;
            while i < self.levels.len()
                invariant
                    i <= self.levels.len(),
                    self@.levels.len() == self.levels@.len(),
                    forall|j: int| 0 <= j < self.levels@.len() ==> self@.levels[j]
                        == self.levels@[j]@,
                    found == exists|j: int| 0 <= j < i && self@.levels[j] == entry@.level,
                decreases self.levels.len() - i,
            {
                if str_eq(self.levels[i].as_str(), entry.level.as_str()) {
                    proof {
                        assert(self@.levels[i as int] == entry@.level);
                    }
                    found = true;
                }
                i = i + 1;
            }
            if !found {
                proof {
                    assert(!self@.levels.contains(entry@.level));
                }
                return false;
            }
            proof {
                assert(self@.levels.contains(entry@.level));
            }
        }
        match self.from {
            Some(f) => {
                match extract_timestamp(entry) {
                    Some(ts) => {
                        if ts < f {
                            return false;
                        }
                    }
                    None => {
                        return false;
                    }
                }
            }
            None => {}
        }
        match self.until {
            Some(u) => {
                match extract_timestamp(entry) {
                    Some(ts) => {
                        if ts > u {
                            return false;
                        }
                    }
                    None => {
                        return false;
                    }
                }
            }
            None => {}
        }
        match &self.search_term {
            Some(p) => {
                if !regex_is_match(p.as_str(), entry.message.as_str()) {
                    return false;
                }
            }
            None => {}
        }
        match &self.filter {
            Some(f) => {
                let tree = entry.to_value();
                if !f.evaluate(&tree) {
                    return false;
                }
            }
            None => {}
        }
        true
    }
}

/// What one projected field contributes: `message` and `level` are
/// first-class; any other name is looked up in the metadata and skipped when
/// absent.
pub open spec fn spec_project_one(f: Seq<char>, rec: SpecRecord) -> Seq<(Seq<char>, SpecJson)> {
    if f == message_key() {
        seq![(message_key(), SpecJson::Str(rec.message))]
    } else if f == level_key() {
        seq![(level_key(), SpecJson::Str(rec.level))]
    } else {
        match obj_lookup(rec.meta, f) {
            Some(v) => seq![(f, v)],
            None => Seq::empty(),
        }
    }
}

/// The projection of a record onto a field list, in field-list order.
pub open spec fn spec_project(fields: Seq<Seq<char>>, rec: SpecRecord) -> Seq<
    (Seq<char>, SpecJson),
>
    decreases fields.len(),
{
    if fields.len() == 0 {
        Seq::empty()
    } else {
        spec_project(fields.drop_last(), rec) + spec_project_one(fields.last(), rec)
    }
}

/// Milliseconds-or-missing ordered with missing first.
pub open spec fn ts_le(a: Option<i64>, b: Option<i64>) -> bool {
    match (a, b) {
        (Option::None, _) => true,
        (Option::Some(_), Option::None) => false,
        (Option::Some(x), Option::Some(y)) => x <= y,
    }
}

/// Record order under a query: by timestamp, missing timestamps first when
/// ascending and last when descending.
pub open spec fn key_le(a: LogRecord, b: LogRecord, order: Order) -> bool {
    match order {
        Order::Ascending => ts_le(spec_record_timestamp(a@), spec_record_timestamp(b@)),
        Order::Descending => ts_le(spec_record_timestamp(b@), spec_record_timestamp(a@)),
    }
}

/// Every pair of a run stands in order.
pub open spec fn sorted_run(s: Seq<LogRecord>, order: Order) -> bool {
    forall|i: int, j: int| 0 <= i < j < s.len() ==> key_le(#[trigger] s[i], #[trigger] s[j], order)
}

/// Compare two records under an order.
fn le_exec(a: &LogRecord, b: &LogRecord, order: Order) -> (r: bool)
    ensures
        r == key_le(*a, *b, order),
{
    let ta = extract_timestamp(a);
    let tb = extract_timestamp(b);
    let (x, y) = match order {
        Order::Ascending => (ta, tb),
        Order::Descending => (tb, ta),
    };
    match (x, y) {
        (Option::None, _) => true,
        (Option::Some(_), Option::None) => false,
        (Option::Some(xa), Option::Some(yb)) => xa <= yb,
    }
}

impl LogQuery {
    /// Select the listed fields out of a record.
    pub fn project(&self, entry: &LogRecord) -> (r: Vec<(String, JsonValue)>)
        ensures
            json_view_fields(r@) == spec_project(self@.fields, entry@),
    {
        proof {
            reveal_strlit("level");
            reveal_strlit("message");
            assert("level"@ =~= level_key());
            assert("message"@ =~= message_key());
        }
        let mut out: Vec<(String, JsonValue)> = Vec::new();
        let ghost sfields = self@.fields;
        let mut i: usize = 0;
        while i < self.fields.len()
            invariant
                i <= self.fields.len(),
                sfields == self@.fields,
                sfields.len() == self.fields@.len(),
                forall|j: int| 0 <= j < self.fields@.len() ==> sfields[j] == self.fields@[j]@,
                json_view_fields(out@) =~= spec_project(sfields.take(i as int), entry@),
            decreases self.fields.len() - i,
        {
            let ghost before = out@;
            proof {
                reveal_strlit("level");
                reveal_strlit("message");
                assert("level"@ =~= level_key());
                assert("message"@ =~= message_key());
                assert(sfields.take(i + 1).drop_last() =~= sfields.take(i as int));
                assert(sfields.take(i + 1).last() == sfields[i as int]);
            }
            let field = &self.fields[i];
            if str_eq(field.as_str(), "message") {
                out.push((String::from_str("message"), JsonValue::Str(entry.message.clone())));
            } else if str_eq(field.as_str(), "level") {
                out.push((String::from_str("level"), JsonValue::Str(entry.level.clone())));
            } else {
                match lookup_fields(&entry.meta, field.as_str()) {
                    Some(v) => {
                        let copied = v.deep_copy();
                        out.push((field.clone(), copied));
                    }
                    None => {}
                }
            }
            proof {
                lemma_json_view_fields(out@);
                lemma_json_view_fields(before);
                if out@.len() > before.len() {
                    assert(json_view_fields(out@) =~= json_view_fields(before) + seq![
                        (out@.last().0@, json_view(out@.last().1)),
                    ]);
                }
                assert(json_view_fields(out@) =~= spec_project(sfields.take(i + 1), entry@));
            }
            i = i + 1;
        }
        proof {
            assert(sfields.take(sfields.len() as int) =~= sfields);
        }
        out
    }

    /// Sort records by their timestamps in this query's order; the records
    /// are kept, only rearranged. The selection below takes the earliest
    /// minimum each round and so keeps equal-timestamp records in their
    /// arrival order, but that stability is not part of the contract.
    pub fn sort(&self, entries: &mut Vec<LogRecord>)
        ensures
            final(entries)@.to_multiset() == old(entries)@.to_multiset(),
            sorted_run(final(entries)@, self.order),
    {
        proof {
            broadcast use vstd::seq_lib::group_to_multiset_ensures;

        }
        let ghost orig = entries@;
        let mut out: Vec<LogRecord> = Vec::new();
        while entries.len() > 0
            invariant
                out@.to_multiset().add(entries@.to_multiset()) =~= orig.to_multiset(),
                sorted_run(out@, self.order),
                forall|i: int, j: int| 0 <= i < out@.len() && 0 <= j < entries@.len() ==> key_le(
                    #[trigger] out@[i],
                    #[trigger] entries@[j],
                    self.order,
                ),
            decreases entries.len(),
        {
            proof {
                broadcast use vstd::seq_lib::group_to_multiset_ensures;

            }
            let mut m: usize = 0;
            let mut i: usize = 1;
            while i < entries.len()
                invariant
                    entries@.len() > 0,
                    m < i,
                    i <= entries@.len(),
                    forall|j: int| 0 <= j < i ==> key_le(
                        entries@[m as int],
                        #[trigger] entries@[j],
                        self.order,
                    ),
                decreases entries.len() - i,
            {
                if !le_exec(&entries[m], &entries[i], self.order) {
                    proof {
                        assert(forall|j: int| 0 <= j < i ==> key_le(
                            entries@[i as int],
                            #[trigger] entries@[j],
                            self.order,
                        ));
                    }
                    m = i;
                }
                i = i + 1;
            }
            let ghost pre = entries@;
            let ghost pre_out = out@;
            let x = entries.remove(m);
            out.push(x);
            proof {
                assert(pre.contains(pre[m as int]));
                assert(pre.to_multiset().count(pre[m as int]) > 0);
                assert(out@.to_multiset() =~= pre_out.to_multiset().insert(x));
                assert(entries@.to_multiset() =~= pre.to_multiset().remove(x));
                assert forall|y: LogRecord|
                    out@.to_multiset().add(entries@.to_multiset()).count(y) == orig.to_multiset()
                    .count(y) by {
                }
                assert(out@.to_multiset().add(entries@.to_multiset()) =~= orig.to_multiset());
                assert forall|i2: int, j2: int|
                    0 <= i2 < out@.len() && 0 <= j2 < entries@.len() implies key_le(
                    #[trigger] out@[i2],
                    #[trigger] entries@[j2],
                    self.order,
                ) by {
                    assert(entries@[j2] == if j2 < m {
                        pre[j2]
                    } else {
                        pre[j2 + 1]
                    });
                    if i2 < out@.len() - 1 {
                        assert(out@[i2] == pre_out[i2]);
                    } else {
                        assert(out@[i2] == x);
                    }
                }
                assert(sorted_run(out@, self.order)) by {
                    assert(forall|i2: int| 0 <= i2 < pre_out.len() ==> key_le(
                        #[trigger] pre_out[i2],
                        x,
                        self.order,
                    ));
                }
            }
        }
        *entries = out;
    }
}

} // verus!
