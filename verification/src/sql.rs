//! The statements that are sent to the database, with their parameters.

use std::collections::HashSet;
use vstd::prelude::*;
use vstd::string::*;

use crate::aggregator::{DayDelta, StatDelta, BUCKET_SECONDS};
use crate::db::{self, FlowRow, FlushBatch, HealthRow, BATCH_SIZE};
use crate::filter;
use crate::text;
use crate::time::{Day, Timestamp};

verus! {

// ── statements ──────────────────────────────────────────────────────────────

/// The value of a parameter.
#[derive(Debug)]
pub enum SqlValue {
    Instant(Timestamp),
    Date(Day),
    /// An IPv4 address.
    Address(u32),
    /// Several of them.
    Addresses(Vec<u32>),
    Int2(i16),
    Int4(i32),
    Int8(i64),
    /// A number, or null.
    OptInt8(Option<i64>),
    Text(String),
}

/// The value of a parameter.
pub enum SqlModel {
    Instant(Timestamp),
    Date(Day),
    Address(u32),
    Addresses(Seq<u32>),
    Int2(i16),
    Int4(i32),
    Int8(i64),
    OptInt8(Option<i64>),
    Text(Seq<char>),
}

impl View for SqlValue {
    type V = SqlModel;

    open spec fn view(&self) -> SqlModel {
        match *self {
            SqlValue::Instant(at) => SqlModel::Instant(at),
            SqlValue::Date(day) => SqlModel::Date(day),
            SqlValue::Address(ip) => SqlModel::Address(ip),
            SqlValue::Addresses(ips) => SqlModel::Addresses(ips@),
            SqlValue::Int2(n) => SqlModel::Int2(n),
            SqlValue::Int4(n) => SqlModel::Int4(n),
            SqlValue::Int8(n) => SqlModel::Int8(n),
            SqlValue::OptInt8(n) => SqlModel::OptInt8(n),
            SqlValue::Text(s) => SqlModel::Text(s@),
        }
    }
}

/// A statement with its parameters.
#[derive(Debug)]
pub struct Statement {
    pub sql: String,
    pub params: Vec<SqlValue>,
    /// What is said when it fails.
    pub failure: &'static str,
}

/// A statement with its parameters.
#[verifier::ext_equal]
pub struct StatementModel {
    pub sql: Seq<char>,
    pub params: Seq<SqlModel>,
    pub failure: Seq<char>,
}

/// The values of parameters.
pub open spec fn values(params: Seq<SqlValue>) -> Seq<SqlModel> {
    Seq::new(params.len(), |i: int| params[i]@)
}

impl View for Statement {
    type V = StatementModel;

    open spec fn view(&self) -> StatementModel {
        StatementModel { sql: self.sql@, params: values(self.params@), failure: self.failure@ }
    }
}

/// Several statements.
pub open spec fn statements(all: Seq<Statement>) -> Seq<StatementModel> {
    Seq::new(all.len(), |i: int| all[i]@)
}

/// The most parameters that PostgreSQL takes in one statement.
pub const MAX_PARAMETERS: usize = 65_535;

// ── placeholders ────────────────────────────────────────────────────────────

/// Placeholders with a comma between any two, numbered on from a number.
pub open spec fn placeholder_list(base: nat, count: nat) -> Seq<char>
    decreases count,
{
    if count == 0 {
        Seq::empty()
    } else if count == 1 {
        "$"@ + text::decimal(base + 1)
    } else {
        placeholder_list(base, (count - 1) as nat) + ","@ + "$"@ + text::decimal(base + count)
    }
}

/// The placeholders of one row, in brackets.
pub open spec fn placeholders(base: nat, count: nat) -> Seq<char> {
    "("@ + placeholder_list(base, count) + ")"@
}

/// The placeholders of several rows: numbered through from one, with a comma between any two rows.
pub open spec fn placeholder_rows(rows: nat, columns: nat) -> Seq<char>
    decreases rows,
{
    if rows == 0 {
        Seq::empty()
    } else if rows == 1 {
        placeholders(0, columns)
    } else {
        placeholder_rows((rows - 1) as nat, columns) + ","@ + placeholders(
            ((rows - 1) * columns) as nat,
            columns,
        )
    }
}

/// Texts with another between any two.
pub open spec fn joined(parts: Seq<Seq<char>>, between: Seq<char>) -> Seq<char>
    decreases parts.len(),
{
    if parts.len() == 0 {
        Seq::empty()
    } else if parts.len() == 1 {
        parts[0]
    } else {
        joined(parts.drop_last(), between) + between + parts.last()
    }
}

/// One more text comes last, after another text in between.
pub proof fn one_more_part(parts: Seq<Seq<char>>, between: Seq<char>, part: Seq<char>)
    requires
        parts.len() > 0,
    ensures
        joined(parts.push(part), between) == joined(parts, between) + between + part,
        joined(seq![part], between) == part,
{
    assert(parts.push(part).drop_last() =~= parts);
}

/// The placeholder with a number.
pub open spec fn numbered(n: int) -> Seq<char> {
    "$"@ + text::decimal(n as nat)
}

/// The placeholder of row `i` and column `c`, both counted from zero, bears the number of the parameter
/// that stands there, where parameters are counted from one. Placeholders of a row have commas between
/// them and brackets around them, and rows have commas between them.
pub proof fn placeholders_count_the_parameters(rows: nat, columns: nat)
    ensures
        placeholder_rows(rows, columns) == joined(
            Seq::new(
                rows,
                |i: int|
                    "("@ + joined(
                        Seq::new(columns, |c: int| numbered(i * columns + c + 1)),
                        ","@,
                    ) + ")"@,
            ),
            ","@,
        ),
    decreases rows,
{
    let row = |i: int|
        "("@ + joined(Seq::new(columns, |c: int| numbered(i * columns + c + 1)), ","@) + ")"@;
    let all = Seq::new(rows, row);
    if rows > 0 {
        let fewer = (rows - 1) as nat;
        placeholders_count_the_parameters(fewer, columns);
        assert(all.drop_last() =~= Seq::new(fewer, row));
        assert(fewer * columns >= 0) by (nonlinear_arith);
        lemma_placeholder_list((fewer * columns) as nat, columns);
        assert(0 * columns == 0) by (nonlinear_arith);
        assert(all.last() == row(fewer as int));
        assert(Seq::new(columns, |c: int| numbered(fewer * columns + c + 1)) =~= Seq::new(
            columns,
            |c: int| numbered((fewer * columns) as nat + c + 1),
        ));
    }
}

proof fn lemma_placeholder_list(base: nat, count: nat)
    ensures
        placeholder_list(base, count) == joined(
            Seq::new(count, |c: int| numbered(base + c + 1)),
            ","@,
        ),
    decreases count,
{
    let all = Seq::new(count, |c: int| numbered(base + c + 1));
    if count > 1 {
        lemma_placeholder_list(base, (count - 1) as nat);
        assert(all.drop_last() =~= Seq::new((count - 1) as nat, |c: int| numbered(base + c + 1)));
        assert(placeholder_list(base, count) =~= placeholder_list(base, (count - 1) as nat) + ","@ + (
        "$"@ + text::decimal(base + count)));
    }
}

/// Appends the placeholders of one row, numbered on from `base`.
pub fn push_placeholders(query: &mut String, base: usize, count: usize)
    requires
        base + count <= usize::MAX,
    ensures
        final(query)@ == old(query)@ + placeholders(base as nat, count as nat),
{
    query.append("(");
    let ghost start = query@;
    let mut k: usize = 0;
    assert(query@ =~= start + placeholder_list(base as nat, 0));
    while k < count
        invariant
            k <= count,
            base + count <= usize::MAX,
            query@ == start + placeholder_list(base as nat, k as nat),
        decreases count - k,
    {
        if k > 0 {
            query.append(",");
        }
        query.append("$");
        text::append_decimal(query, (base + k + 1) as u64);
        k += 1;
        assert(query@ =~= start + placeholder_list(base as nat, k as nat));
    }
    query.append(")");
    assert(query@ =~= old(query)@ + placeholders(base as nat, count as nat));
}

/// Appends the placeholders of one more row.
fn push_row(query: &mut String, row: usize, columns: usize)
    requires
        (row + 1) * columns <= usize::MAX,
    ensures
        forall|start: Seq<char>|
            old(query)@ == #[trigger] (start + placeholder_rows(row as nat, columns as nat))
                ==> final(query)@ == start + placeholder_rows((row + 1) as nat, columns as nat),
{
    if row > 0 {
        query.append(",");
    }
    assert(row * columns + columns == (row + 1) * columns) by (nonlinear_arith);
    assert(row * columns >= 0) by (nonlinear_arith);
    push_placeholders(query, row * columns, columns);
    proof {
        assert forall|start: Seq<char>|
            old(query)@ == #[trigger] (start + placeholder_rows(
                row as nat,
                columns as nat,
            )) implies query@ == start + placeholder_rows((row + 1) as nat, columns as nat) by {
            assert(query@ =~= start + placeholder_rows((row + 1) as nat, columns as nat));
        }
    }
}

// ── parameters by row ───────────────────────────────────────────────────────

/// The values of rows, one row after the other.
pub open spec fn in_a_row(rows: Seq<Seq<SqlModel>>) -> Seq<SqlModel>
    decreases rows.len(),
{
    if rows.len() == 0 {
        Seq::empty()
    } else {
        in_a_row(rows.drop_last()) + rows.last()
    }
}

/// Where every row has the same number of values, the value of row `i` and column `c` stands where
/// the placeholder of that row and column looks for it, and there are as many values as
/// placeholders.
pub proof fn values_meet_their_placeholders(rows: Seq<Seq<SqlModel>>, columns: nat, i: int, c: int)
    requires
        forall|k: int| 0 <= k < rows.len() ==> (#[trigger] rows[k]).len() == columns,
        0 <= i < rows.len(),
        0 <= c < columns,
    ensures
        in_a_row(rows).len() == rows.len() * columns,
        0 <= i * columns + c < in_a_row(rows).len(),
        in_a_row(rows)[i * columns + c] == rows[i][c],
    decreases rows.len(),
{
    lemma_count(rows, columns);
    let n = rows.len();
    let head = rows.drop_last();
    lemma_count(head, columns);
    assert(i * columns + c < (i + 1) * columns) by (nonlinear_arith)
        requires
            c < columns,
    ;
    assert((i + 1) * columns <= n * columns) by (nonlinear_arith)
        requires
            i + 1 <= n,
            columns >= 0,
    ;
    assert(i * columns >= 0) by (nonlinear_arith)
        requires
            i >= 0,
            columns >= 0,
    ;
    if i < n - 1 {
        assert(head[i] == rows[i]);
        values_meet_their_placeholders(head, columns, i, c);
    } else {
        assert(in_a_row(rows)[(n - 1) * columns + c] == rows.last()[c]);
    }
}

/// There are as many values as placeholders.
pub proof fn values_are_as_many_as_placeholders(rows: Seq<Seq<SqlModel>>, columns: nat)
    requires
        forall|k: int| 0 <= k < rows.len() ==> (#[trigger] rows[k]).len() == columns,
    ensures
        in_a_row(rows).len() == rows.len() * columns,
{
    lemma_count(rows, columns);
}

/// The parameter of row `i` and column `c`.
proof fn lemma_cell(params: Seq<SqlValue>, rows: Seq<Seq<SqlModel>>, columns: nat, i: int, c: int)
    requires
        values(params) == in_a_row(rows),
        forall|k: int| 0 <= k < rows.len() ==> (#[trigger] rows[k]).len() == columns,
        0 <= i < rows.len(),
        0 <= c < columns,
    ensures
        0 <= i * columns + c < params.len(),
        params[i * columns + c]@ == rows[i][c],
{
    values_meet_their_placeholders(rows, columns, i, c);
    assert(values(params)[i * columns + c] == params[i * columns + c]@);
}

proof fn lemma_count(rows: Seq<Seq<SqlModel>>, columns: nat)
    requires
        forall|k: int| 0 <= k < rows.len() ==> (#[trigger] rows[k]).len() == columns,
    ensures
        in_a_row(rows).len() == rows.len() * columns,
    decreases rows.len(),
{
    if rows.len() > 0 {
        let head = rows.drop_last();
        assert forall|k: int| 0 <= k < head.len() implies (#[trigger] head[k]).len() == columns by {
            assert(head[k] == rows[k]);
        }
        lemma_count(head, columns);
        assert(rows.last() == rows[rows.len() - 1]);
        assert((rows.len() - 1) * columns + columns == rows.len() * columns) by (nonlinear_arith);
    }
}

// ── raw rows ────────────────────────────────────────────────────────────────

/// The columns of a raw row.
pub const RAW_COLUMNS: usize = 13;

/// How a statement starts that writes raw rows.
pub const RAW_INSERT: &'static str = "INSERT INTO flow_raw \
    (ts,srcaddr,dstaddr,srcport,dstport,prot,d_pkts,d_octets,\
    tcp_flags,input,output,tos,sampling_interval) VALUES ";

/// The values of a raw row.
pub open spec fn raw_values(row: FlowRow) -> Seq<SqlModel> {
    seq![
        SqlModel::Instant(row.ts),
        SqlModel::Address(row.src_addr),
        SqlModel::Address(row.dst_addr),
        SqlModel::Int4(row.src_port),
        SqlModel::Int4(row.dst_port),
        SqlModel::Int2(row.protocol),
        SqlModel::Int8(row.packets),
        SqlModel::Int8(row.bytes),
        SqlModel::Int2(row.tcp_flags),
        SqlModel::Int4(row.input),
        SqlModel::Int4(row.output),
        SqlModel::Int2(row.tos),
        SqlModel::Int4(row.sampling_interval),
    ]
}

/// The values of raw rows, row by row.
pub open spec fn raw_rows(rows: Seq<FlowRow>) -> Seq<Seq<SqlModel>> {
    Seq::new(rows.len(), |i: int| raw_values(rows[i]))
}

/// The statement that writes raw rows.
pub open spec fn raw_insert(rows: Seq<FlowRow>) -> StatementModel {
    StatementModel {
        sql: RAW_INSERT@ + placeholder_rows(rows.len(), RAW_COLUMNS as nat),
        params: in_a_row(raw_rows(rows)),
        failure: "flow_raw INSERT failed"@,
    }
}

/// Appends the values of a raw row.
fn push_raw_values(params: &mut Vec<SqlValue>, row: &FlowRow)
    ensures
        values(final(params)@) == values(old(params)@) + raw_values(*row),
{
    params.push(SqlValue::Instant(row.ts));
    params.push(SqlValue::Address(row.src_addr));
    params.push(SqlValue::Address(row.dst_addr));
    params.push(SqlValue::Int4(row.src_port));
    params.push(SqlValue::Int4(row.dst_port));
    params.push(SqlValue::Int2(row.protocol));
    params.push(SqlValue::Int8(row.packets));
    params.push(SqlValue::Int8(row.bytes));
    params.push(SqlValue::Int2(row.tcp_flags));
    params.push(SqlValue::Int4(row.input));
    params.push(SqlValue::Int4(row.output));
    params.push(SqlValue::Int2(row.tos));
    params.push(SqlValue::Int4(row.sampling_interval));
    assert(values(params@) =~= values(old(params)@) + raw_values(*row));
}

/// The statement that writes raw rows; none, where there are none.
pub fn write_raw_rows(rows: &Vec<FlowRow>) -> (r: Option<Statement>)
    requires
        rows@.len() * RAW_COLUMNS <= usize::MAX,
    ensures
        r is None <==> rows@.len() == 0,
        r matches Some(statement) ==> statement@ == raw_insert(rows@),
        r matches Some(statement) ==> statement.sql@ == "INSERT INTO flow_raw (ts,srcaddr,dstaddr,srcport,dstport,prot,d_pkts,d_octets,\
            tcp_flags,input,output,tos,sampling_interval) VALUES "@ + placeholder_rows(
            rows@.len(),
            13,
        ),
        r matches Some(statement) ==> statement.failure@ == "flow_raw INSERT failed"@,
        r matches Some(statement) ==> statement.params@.len() == 13 * rows@.len(),
        r matches Some(statement) ==> forall|i: int|
            0 <= i < rows@.len() ==> ({
                let row = #[trigger] rows@[i];
                let params = statement.params@;
                &&& params[13 * i] == SqlValue::Instant(row.ts)
                &&& params[13 * i + 1] == SqlValue::Address(row.src_addr)
                &&& params[13 * i + 2] == SqlValue::Address(row.dst_addr)
                &&& params[13 * i + 3] == SqlValue::Int4(row.src_port)
                &&& params[13 * i + 4] == SqlValue::Int4(row.dst_port)
                &&& params[13 * i + 5] == SqlValue::Int2(row.protocol)
                &&& params[13 * i + 6] == SqlValue::Int8(row.packets)
                &&& params[13 * i + 7] == SqlValue::Int8(row.bytes)
                &&& params[13 * i + 8] == SqlValue::Int2(row.tcp_flags)
                &&& params[13 * i + 9] == SqlValue::Int4(row.input)
                &&& params[13 * i + 10] == SqlValue::Int4(row.output)
                &&& params[13 * i + 11] == SqlValue::Int2(row.tos)
                &&& params[13 * i + 12] == SqlValue::Int4(row.sampling_interval)
            }),
{
    if rows.len() == 0 {
        return None;
    }
    let mut query: String = RAW_INSERT.to_owned();
    let mut params: Vec<SqlValue> = Vec::new();
    let mut i: usize = 0;
    assert(query@ =~= RAW_INSERT@ + placeholder_rows(0, RAW_COLUMNS as nat));
    assert(values(params@) =~= in_a_row(raw_rows(rows@).take(0)));
    while i < rows.len()
        invariant
            i <= rows.len(),
            rows@.len() * RAW_COLUMNS <= usize::MAX,
            query@ == RAW_INSERT@ + placeholder_rows(i as nat, RAW_COLUMNS as nat),
            values(params@) == in_a_row(raw_rows(rows@).take(i as int)),
        decreases rows.len() - i,
    {
        push_row(&mut query, i, RAW_COLUMNS);
        push_raw_values(&mut params, &rows[i]);
        proof {
            let next = raw_rows(rows@).take(i + 1);
            assert(next.drop_last() =~= raw_rows(rows@).take(i as int));
            assert(next.last() == raw_values(rows@[i as int]));
        }
        i += 1;
    }
    assert(raw_rows(rows@).take(i as int) =~= raw_rows(rows@));
    proof {
        lemma_raw_params(params@, rows@);
    }
    Some(Statement { sql: query, params, failure: "flow_raw INSERT failed" })
}

/// The parameters of a statement that writes raw rows, one by one.
proof fn lemma_raw_params(params: Seq<SqlValue>, rows: Seq<FlowRow>)
    requires
        values(params) == in_a_row(raw_rows(rows)),
    ensures
        params.len() == 13 * rows.len(),
        forall|i: int|
            0 <= i < rows.len() ==> ({
                let row = #[trigger] rows[i];
                &&& params[13 * i] == SqlValue::Instant(row.ts)
                &&& params[13 * i + 1] == SqlValue::Address(row.src_addr)
                &&& params[13 * i + 2] == SqlValue::Address(row.dst_addr)
                &&& params[13 * i + 3] == SqlValue::Int4(row.src_port)
                &&& params[13 * i + 4] == SqlValue::Int4(row.dst_port)
                &&& params[13 * i + 5] == SqlValue::Int2(row.protocol)
                &&& params[13 * i + 6] == SqlValue::Int8(row.packets)
                &&& params[13 * i + 7] == SqlValue::Int8(row.bytes)
                &&& params[13 * i + 8] == SqlValue::Int2(row.tcp_flags)
                &&& params[13 * i + 9] == SqlValue::Int4(row.input)
                &&& params[13 * i + 10] == SqlValue::Int4(row.output)
                &&& params[13 * i + 11] == SqlValue::Int2(row.tos)
                &&& params[13 * i + 12] == SqlValue::Int4(row.sampling_interval)
            }),
{
    let by_row = raw_rows(rows);
    lemma_count(by_row, 13);
    assert(params.len() == values(params).len());
    assert forall|i: int| 0 <= i < rows.len() implies ({
        let row = #[trigger] rows[i];
        &&& params[13 * i] == SqlValue::Instant(row.ts)
        &&& params[13 * i + 1] == SqlValue::Address(row.src_addr)
        &&& params[13 * i + 2] == SqlValue::Address(row.dst_addr)
        &&& params[13 * i + 3] == SqlValue::Int4(row.src_port)
        &&& params[13 * i + 4] == SqlValue::Int4(row.dst_port)
        &&& params[13 * i + 5] == SqlValue::Int2(row.protocol)
        &&& params[13 * i + 6] == SqlValue::Int8(row.packets)
        &&& params[13 * i + 7] == SqlValue::Int8(row.bytes)
        &&& params[13 * i + 8] == SqlValue::Int2(row.tcp_flags)
        &&& params[13 * i + 9] == SqlValue::Int4(row.input)
        &&& params[13 * i + 10] == SqlValue::Int4(row.output)
        &&& params[13 * i + 11] == SqlValue::Int2(row.tos)
        &&& params[13 * i + 12] == SqlValue::Int4(row.sampling_interval)
    }) by {
        assert(by_row[i] == raw_values(rows[i]));
        lemma_cell(params, by_row, 13, i, 0);
        lemma_cell(params, by_row, 13, i, 1);
        lemma_cell(params, by_row, 13, i, 2);
        lemma_cell(params, by_row, 13, i, 3);
        lemma_cell(params, by_row, 13, i, 4);
        lemma_cell(params, by_row, 13, i, 5);
        lemma_cell(params, by_row, 13, i, 6);
        lemma_cell(params, by_row, 13, i, 7);
        lemma_cell(params, by_row, 13, i, 8);
        lemma_cell(params, by_row, 13, i, 9);
        lemma_cell(params, by_row, 13, i, 10);
        lemma_cell(params, by_row, 13, i, 11);
        lemma_cell(params, by_row, 13, i, 12);
    }
}

// ── statistics ──────────────────────────────────────────────────────────────

/// How many rows of statistics go into one statement.
pub const UPSERT_CHUNK_ROWS: usize = 2000;

/// The columns of a row of statistics.
pub const STAT_COLUMNS: usize = 6;

/// How a statement starts that adds to buckets.
pub const BUCKET_INSERT: &'static str = "INSERT INTO flow_stat_5m \
    (bucket,addr,intra_rx_bytes,intra_tx_bytes,ext_rx_bytes,ext_tx_bytes) VALUES ";

/// How it goes on.
pub const BUCKET_CONFLICT: &'static str = " ON CONFLICT (bucket,addr) DO UPDATE SET \
    intra_rx_bytes = flow_stat_5m.intra_rx_bytes + EXCLUDED.intra_rx_bytes,\
    intra_tx_bytes = flow_stat_5m.intra_tx_bytes + EXCLUDED.intra_tx_bytes,\
    ext_rx_bytes   = flow_stat_5m.ext_rx_bytes   + EXCLUDED.ext_rx_bytes,\
    ext_tx_bytes   = flow_stat_5m.ext_tx_bytes   + EXCLUDED.ext_tx_bytes";

/// How a statement starts that adds to days.
pub const DAY_INSERT: &'static str = "INSERT INTO flow_stat_1d \
    (day,addr,intra_rx_bytes,intra_tx_bytes,ext_rx_bytes,ext_tx_bytes) VALUES ";

/// How it goes on.
pub const DAY_CONFLICT: &'static str = " ON CONFLICT (day,addr) DO UPDATE SET \
    intra_rx_bytes = flow_stat_1d.intra_rx_bytes + EXCLUDED.intra_rx_bytes,\
    intra_tx_bytes = flow_stat_1d.intra_tx_bytes + EXCLUDED.intra_tx_bytes,\
    ext_rx_bytes   = flow_stat_1d.ext_rx_bytes   + EXCLUDED.ext_rx_bytes,\
    ext_tx_bytes   = flow_stat_1d.ext_tx_bytes   + EXCLUDED.ext_tx_bytes";

/// The statement that adds a window to the health table.
pub const HEALTH_UPSERT: &'static str = "INSERT INTO collector_health_1m \
    (bucket,packets_received,flows_parsed,parse_failures,seq_gap,flows_matched,\
    rows_written,db_failures,clock_skew_min_ms,clock_skew_max_ms,\
    clock_skew_last_ms,clock_skew_rejects) \
    VALUES ($1,$2,$3,$4,$5,$6,$7,$8,$9,$10,$11,$12) \
    ON CONFLICT (bucket) DO UPDATE SET \
    packets_received = collector_health_1m.packets_received + EXCLUDED.packets_received,\
    flows_parsed     = collector_health_1m.flows_parsed     + EXCLUDED.flows_parsed,\
    parse_failures   = collector_health_1m.parse_failures   + EXCLUDED.parse_failures,\
    seq_gap          = collector_health_1m.seq_gap          + EXCLUDED.seq_gap,\
    flows_matched    = collector_health_1m.flows_matched    + EXCLUDED.flows_matched,\
    rows_written     = collector_health_1m.rows_written     + EXCLUDED.rows_written,\
    db_failures      = collector_health_1m.db_failures      + EXCLUDED.db_failures,\
    clock_skew_min_ms  = LEAST(collector_health_1m.clock_skew_min_ms, EXCLUDED.clock_skew_min_ms),\
    clock_skew_max_ms  = GREATEST(collector_health_1m.clock_skew_max_ms, EXCLUDED.clock_skew_max_ms),\
    clock_skew_last_ms = COALESCE(EXCLUDED.clock_skew_last_ms, collector_health_1m.clock_skew_last_ms),\
    clock_skew_rejects = collector_health_1m.clock_skew_rejects + EXCLUDED.clock_skew_rejects";

/// The values of a bucket row.
pub open spec fn bucket_values(row: StatDelta) -> Seq<SqlModel> {
    seq![
        SqlModel::Instant(row.key.bucket),
        SqlModel::Address(row.key.addr),
        SqlModel::Int8(row.counters.intra_rx),
        SqlModel::Int8(row.counters.intra_tx),
        SqlModel::Int8(row.counters.ext_rx),
        SqlModel::Int8(row.counters.ext_tx),
    ]
}

/// The values of a day row.
pub open spec fn day_values(row: DayDelta) -> Seq<SqlModel> {
    seq![
        SqlModel::Date(row.day),
        SqlModel::Address(row.addr),
        SqlModel::Int8(row.counters.intra_rx),
        SqlModel::Int8(row.counters.intra_tx),
        SqlModel::Int8(row.counters.ext_rx),
        SqlModel::Int8(row.counters.ext_tx),
    ]
}

/// The values of a health row.
pub open spec fn health_values(bucket: Timestamp, row: HealthRow) -> Seq<SqlModel> {
    seq![
        SqlModel::Instant(bucket),
        SqlModel::Int8(row.packets_received),
        SqlModel::Int8(row.flows_parsed),
        SqlModel::Int8(row.parse_failures),
        SqlModel::Int8(row.seq_gap),
        SqlModel::Int8(row.flows_matched),
        SqlModel::Int8(row.rows_written),
        SqlModel::Int8(row.db_failures),
        SqlModel::OptInt8(row.clock_skew_min_ms),
        SqlModel::OptInt8(row.clock_skew_max_ms),
        SqlModel::OptInt8(row.clock_skew_last_ms),
        SqlModel::Int8(row.clock_skew_rejects),
    ]
}

/// The values of bucket rows, row by row.
pub open spec fn bucket_value_rows(rows: Seq<StatDelta>) -> Seq<Seq<SqlModel>> {
    Seq::new(rows.len(), |i: int| bucket_values(rows[i]))
}

/// The values of day rows, row by row.
pub open spec fn day_value_rows(rows: Seq<DayDelta>) -> Seq<Seq<SqlModel>> {
    Seq::new(rows.len(), |i: int| day_values(rows[i]))
}

/// A statement that adds bucket rows to the table.
pub open spec fn bucket_upsert(rows: Seq<StatDelta>) -> StatementModel {
    StatementModel {
        sql: BUCKET_INSERT@ + placeholder_rows(rows.len(), STAT_COLUMNS as nat) + BUCKET_CONFLICT@,
        params: in_a_row(bucket_value_rows(rows)),
        failure: "flow_stat_5m upsert failed"@,
    }
}

/// A statement that adds day rows to the table.
pub open spec fn day_upsert(rows: Seq<DayDelta>) -> StatementModel {
    StatementModel {
        sql: DAY_INSERT@ + placeholder_rows(rows.len(), STAT_COLUMNS as nat) + DAY_CONFLICT@,
        params: in_a_row(day_value_rows(rows)),
        failure: "flow_stat_1d upsert failed"@,
    }
}

/// A statement that adds a window to the health table.
pub open spec fn health_upsert(bucket: Timestamp, row: HealthRow) -> StatementModel {
    StatementModel {
        sql: HEALTH_UPSERT@,
        params: health_values(bucket, row),
        failure: "collector_health_1m upsert failed"@,
    }
}

/// How many chunks rows are cut into.
pub open spec fn chunk_count(rows: nat) -> nat {
    ((rows + UPSERT_CHUNK_ROWS - 1) / UPSERT_CHUNK_ROWS as int) as nat
}

/// Rows cut into chunks, all but the last of the full length.
pub open spec fn chunk<T>(rows: Seq<T>, i: int) -> Seq<T> {
    let end = (i + 1) * UPSERT_CHUNK_ROWS;
    rows.subrange(
        i * UPSERT_CHUNK_ROWS,
        if end < rows.len() {
            end
        } else {
            rows.len() as int
        },
    )
}

/// The statements that add bucket rows to the table, a chunk each.
pub open spec fn bucket_upserts(rows: Seq<StatDelta>) -> Seq<StatementModel> {
    Seq::new(chunk_count(rows.len()), |i: int| bucket_upsert(chunk(rows, i)))
}

/// The statements that add day rows to the table, a chunk each.
pub open spec fn day_upserts(rows: Seq<DayDelta>) -> Seq<StatementModel> {
    Seq::new(chunk_count(rows.len()), |i: int| day_upsert(chunk(rows, i)))
}

/// The statements that add windows to the health table; rows for no window are passed over.
pub open spec fn health_upserts(rows: Seq<HealthRow>) -> Seq<StatementModel>
    decreases rows.len(),
{
    if rows.len() == 0 {
        Seq::empty()
    } else {
        health_upserts(rows.drop_last()) + (match rows.last().bucket {
            Some(bucket) => seq![health_upsert(bucket, rows.last())],
            None => Seq::empty(),
        })
    }
}

/// A statement that adds the bucket rows from one place up to another.
fn write_buckets(rows: &Vec<StatDelta>, from: usize, to: usize) -> (r: Statement)
    requires
        from <= to <= rows@.len(),
        to - from <= UPSERT_CHUNK_ROWS,
    ensures
        r@ == bucket_upsert(rows@.subrange(from as int, to as int)),
{
    let ghost part = rows@.subrange(from as int, to as int);
    let mut query: String = BUCKET_INSERT.to_owned();
    let mut params: Vec<SqlValue> = Vec::new();
    let mut i: usize = 0;
    assert(query@ =~= BUCKET_INSERT@ + placeholder_rows(0, STAT_COLUMNS as nat));
    assert(values(params@) =~= in_a_row(bucket_value_rows(part).take(0)));
    while i < to - from
        invariant
            i <= to - from,
            from <= to <= rows@.len(),
            to - from <= UPSERT_CHUNK_ROWS,
            part == rows@.subrange(from as int, to as int),
            query@ == BUCKET_INSERT@ + placeholder_rows(i as nat, STAT_COLUMNS as nat),
            values(params@) == in_a_row(bucket_value_rows(part).take(i as int)),
        decreases to - from - i,
    {
        let row = rows[from + i];
        push_row(&mut query, i, STAT_COLUMNS);
        let ghost before = values(params@);
        params.push(SqlValue::Instant(row.key.bucket));
        params.push(SqlValue::Address(row.key.addr));
        params.push(SqlValue::Int8(row.counters.intra_rx));
        params.push(SqlValue::Int8(row.counters.intra_tx));
        params.push(SqlValue::Int8(row.counters.ext_rx));
        params.push(SqlValue::Int8(row.counters.ext_tx));
        proof {
            assert(values(params@) =~= before + bucket_values(row));
            let next = bucket_value_rows(part).take(i + 1);
            assert(next.drop_last() =~= bucket_value_rows(part).take(i as int));
            assert(next.last() == bucket_values(row));
        }
        i += 1;
    }
    query.append(BUCKET_CONFLICT);
    assert(bucket_value_rows(part).take(i as int) =~= bucket_value_rows(part));
    Statement { sql: query, params, failure: "flow_stat_5m upsert failed" }
}

/// A statement that adds the day rows from one place up to another.
fn write_days(rows: &Vec<DayDelta>, from: usize, to: usize) -> (r: Statement)
    requires
        from <= to <= rows@.len(),
        to - from <= UPSERT_CHUNK_ROWS,
    ensures
        r@ == day_upsert(rows@.subrange(from as int, to as int)),
{
    let ghost part = rows@.subrange(from as int, to as int);
    let mut query: String = DAY_INSERT.to_owned();
    let mut params: Vec<SqlValue> = Vec::new();
    let mut i: usize = 0;
    assert(query@ =~= DAY_INSERT@ + placeholder_rows(0, STAT_COLUMNS as nat));
    assert(values(params@) =~= in_a_row(day_value_rows(part).take(0)));
    while i < to - from
        invariant
            i <= to - from,
            from <= to <= rows@.len(),
            to - from <= UPSERT_CHUNK_ROWS,
            part == rows@.subrange(from as int, to as int),
            query@ == DAY_INSERT@ + placeholder_rows(i as nat, STAT_COLUMNS as nat),
            values(params@) == in_a_row(day_value_rows(part).take(i as int)),
        decreases to - from - i,
    {
        let row = rows[from + i];
        push_row(&mut query, i, STAT_COLUMNS);
        let ghost before = values(params@);
        params.push(SqlValue::Date(row.day));
        params.push(SqlValue::Address(row.addr));
        params.push(SqlValue::Int8(row.counters.intra_rx));
        params.push(SqlValue::Int8(row.counters.intra_tx));
        params.push(SqlValue::Int8(row.counters.ext_rx));
        params.push(SqlValue::Int8(row.counters.ext_tx));
        proof {
            assert(values(params@) =~= before + day_values(row));
            let next = day_value_rows(part).take(i + 1);
            assert(next.drop_last() =~= day_value_rows(part).take(i as int));
            assert(next.last() == day_values(row));
        }
        i += 1;
    }
    query.append(DAY_CONFLICT);
    assert(day_value_rows(part).take(i as int) =~= day_value_rows(part));
    Statement { sql: query, params, failure: "flow_stat_1d upsert failed" }
}

/// A statement that adds a window to the health table.
fn write_health(bucket: Timestamp, row: &HealthRow) -> (r: Statement)
    ensures
        r@ == health_upsert(bucket, *row),
{
    let mut params: Vec<SqlValue> = Vec::new();
    params.push(SqlValue::Instant(bucket));
    params.push(SqlValue::Int8(row.packets_received));
    params.push(SqlValue::Int8(row.flows_parsed));
    params.push(SqlValue::Int8(row.parse_failures));
    params.push(SqlValue::Int8(row.seq_gap));
    params.push(SqlValue::Int8(row.flows_matched));
    params.push(SqlValue::Int8(row.rows_written));
    params.push(SqlValue::Int8(row.db_failures));
    params.push(SqlValue::OptInt8(row.clock_skew_min_ms));
    params.push(SqlValue::OptInt8(row.clock_skew_max_ms));
    params.push(SqlValue::OptInt8(row.clock_skew_last_ms));
    params.push(SqlValue::Int8(row.clock_skew_rejects));
    assert(values(params@) =~= health_values(bucket, *row));
    Statement {
        sql: HEALTH_UPSERT.to_owned(),
        params,
        failure: "collector_health_1m upsert failed",
    }
}

/// The end of the chunk that starts at a place.
fn chunk_end(from: usize, len: usize) -> (r: usize)
    requires
        from < len,
    ensures
        r == (if from + UPSERT_CHUNK_ROWS < len {
            from + UPSERT_CHUNK_ROWS
        } else {
            len as int
        }),
{
    if len - from > UPSERT_CHUNK_ROWS {
        from + UPSERT_CHUNK_ROWS
    } else {
        len
    }
}

/// The statements that write what waits: buckets first, then days, both in chunks, then the health
/// rows that belong to a window.
pub fn write_flush_batch(batch: &FlushBatch, health: &Vec<HealthRow>) -> (r: Vec<Statement>)
    ensures
        statements(r@) == bucket_upserts(batch.buckets@) + day_upserts(batch.days@)
            + health_upserts(health@),
        r@.len() == parts(batch.buckets@.len()) + parts(batch.days@.len()) + windows(health@),
        forall|c: int|
            0 <= c < parts(batch.buckets@.len()) ==> (#[trigger] r@[c]).failure@
                == "flow_stat_5m upsert failed"@,
        forall|c: int|
            0 <= c < parts(batch.days@.len()) ==> (#[trigger] r@[parts(batch.buckets@.len()) + c]).failure@
                == "flow_stat_1d upsert failed"@,
        forall|c: int|
            0 <= c < windows(health@) ==> ({
                let statement = #[trigger] r@[parts(batch.buckets@.len()) + parts(batch.days@.len()) + c];
                &&& statement.failure@ == "collector_health_1m upsert failed"@
                &&& statement.sql@ == "INSERT INTO collector_health_1m (bucket,packets_received,flows_parsed,\
                        parse_failures,seq_gap,flows_matched,rows_written,db_failures,\
                        clock_skew_min_ms,clock_skew_max_ms,clock_skew_last_ms,\
                        clock_skew_rejects) VALUES ($1,$2,$3,$4,$5,$6,$7,$8,$9,$10,$11,$12) ON \
                        CONFLICT (bucket) DO UPDATE SET packets_received = \
                        collector_health_1m.packets_received + EXCLUDED.packets_received,\
                        flows_parsed     = collector_health_1m.flows_parsed     + \
                        EXCLUDED.flows_parsed,parse_failures   = \
                        collector_health_1m.parse_failures   + EXCLUDED.parse_failures,seq_gap          \
                        = collector_health_1m.seq_gap          + EXCLUDED.seq_gap,flows_matched    \
                        = collector_health_1m.flows_matched    + EXCLUDED.flows_matched,\
                        rows_written     = collector_health_1m.rows_written     + \
                        EXCLUDED.rows_written,db_failures      = \
                        collector_health_1m.db_failures      + EXCLUDED.db_failures,\
                        clock_skew_min_ms  = LEAST(collector_health_1m.clock_skew_min_ms, \
                        EXCLUDED.clock_skew_min_ms),clock_skew_max_ms  = \
                        GREATEST(collector_health_1m.clock_skew_max_ms, \
                        EXCLUDED.clock_skew_max_ms),clock_skew_last_ms = \
                        COALESCE(EXCLUDED.clock_skew_last_ms, \
                        collector_health_1m.clock_skew_last_ms),clock_skew_rejects = \
                        collector_health_1m.clock_skew_rejects + EXCLUDED.clock_skew_rejects"@
            }),
        forall|c: int|
            0 <= c < parts(batch.buckets@.len()) ==> (#[trigger] r@[c]).sql@
                == "INSERT INTO flow_stat_5m \
                (bucket,addr,intra_rx_bytes,intra_tx_bytes,ext_rx_bytes,ext_tx_bytes) VALUES "@
                + placeholder_rows(part_len(batch.buckets@.len(), c), 6) + " ON CONFLICT (bucket,addr) DO UPDATE SET \
                intra_rx_bytes = flow_stat_5m.intra_rx_bytes + EXCLUDED.intra_rx_bytes,\
                intra_tx_bytes = flow_stat_5m.intra_tx_bytes + EXCLUDED.intra_tx_bytes,\
                ext_rx_bytes   = flow_stat_5m.ext_rx_bytes   + EXCLUDED.ext_rx_bytes,\
                ext_tx_bytes   = flow_stat_5m.ext_tx_bytes   + EXCLUDED.ext_tx_bytes"@,
        forall|j: int|
            0 <= j < batch.buckets@.len() ==> ({
                let row = #[trigger] batch.buckets@[j];
                let params = r@[j / 2000].params@;
                &&& params[6 * (j % 2000)] == SqlValue::Instant(row.key.bucket)
                &&& params[6 * (j % 2000) + 1] == SqlValue::Address(row.key.addr)
                &&& params[6 * (j % 2000) + 2] == SqlValue::Int8(row.counters.intra_rx)
                &&& params[6 * (j % 2000) + 3] == SqlValue::Int8(row.counters.intra_tx)
                &&& params[6 * (j % 2000) + 4] == SqlValue::Int8(row.counters.ext_rx)
                &&& params[6 * (j % 2000) + 5] == SqlValue::Int8(row.counters.ext_tx)
            }),
        forall|c: int|
            0 <= c < parts(batch.days@.len()) ==> (#[trigger] r@[parts(batch.buckets@.len()) + c]).sql@
                == "INSERT INTO flow_stat_1d \
                (day,addr,intra_rx_bytes,intra_tx_bytes,ext_rx_bytes,ext_tx_bytes) VALUES "@
                + placeholder_rows(part_len(batch.days@.len(), c), 6) + " ON CONFLICT (day,addr) DO UPDATE SET \
                intra_rx_bytes = flow_stat_1d.intra_rx_bytes + EXCLUDED.intra_rx_bytes,\
                intra_tx_bytes = flow_stat_1d.intra_tx_bytes + EXCLUDED.intra_tx_bytes,\
                ext_rx_bytes   = flow_stat_1d.ext_rx_bytes   + EXCLUDED.ext_rx_bytes,\
                ext_tx_bytes   = flow_stat_1d.ext_tx_bytes   + EXCLUDED.ext_tx_bytes"@,
        forall|j: int|
            0 <= j < batch.days@.len() ==> ({
                let row = #[trigger] batch.days@[j];
                let params = r@[parts(batch.buckets@.len()) + j / 2000].params@;
                &&& params[6 * (j % 2000)] == SqlValue::Date(row.day)
                &&& params[6 * (j % 2000) + 1] == SqlValue::Address(row.addr)
                &&& params[6 * (j % 2000) + 2] == SqlValue::Int8(row.counters.intra_rx)
                &&& params[6 * (j % 2000) + 3] == SqlValue::Int8(row.counters.intra_tx)
                &&& params[6 * (j % 2000) + 4] == SqlValue::Int8(row.counters.ext_rx)
                &&& params[6 * (j % 2000) + 5] == SqlValue::Int8(row.counters.ext_tx)
            }),
        forall|j: int|
            0 <= j < health@.len() ==> ({
                let row = #[trigger] health@[j];
                let params = r@[parts(batch.buckets@.len()) + parts(batch.days@.len()) + windows(
                    health@.take(j),
                )].params@;
                row.bucket matches Some(bucket) ==> {
                    &&& params.len() == 12
                    &&& params[0] == SqlValue::Instant(bucket)
                    &&& params[1] == SqlValue::Int8(row.packets_received)
                    &&& params[2] == SqlValue::Int8(row.flows_parsed)
                    &&& params[3] == SqlValue::Int8(row.parse_failures)
                    &&& params[4] == SqlValue::Int8(row.seq_gap)
                    &&& params[5] == SqlValue::Int8(row.flows_matched)
                    &&& params[6] == SqlValue::Int8(row.rows_written)
                    &&& params[7] == SqlValue::Int8(row.db_failures)
                    &&& params[8] == SqlValue::OptInt8(row.clock_skew_min_ms)
                    &&& params[9] == SqlValue::OptInt8(row.clock_skew_max_ms)
                    &&& params[10] == SqlValue::OptInt8(row.clock_skew_last_ms)
                    &&& params[11] == SqlValue::Int8(row.clock_skew_rejects)
                }
            }),
{
    let mut out: Vec<Statement> = Vec::new();
    push_bucket_upserts(&mut out, &batch.buckets);
    push_day_upserts(&mut out, &batch.days);
    let ghost before = statements(out@);
    let mut i: usize = 0;
    assert(before + health_upserts(health@.take(0)) =~= before);
    while i < health.len()
        invariant
            i <= health.len(),
            statements(out@) == before + health_upserts(health@.take(i as int)),
        decreases health.len() - i,
    {
        let row = health[i];
        let ghost earlier = statements(out@);
        let ghost next = health@.take(i + 1);
        assert(next.drop_last() =~= health@.take(i as int));
        assert(next.last() == row);
        if let Some(bucket) = row.bucket {
            let statement = write_health(bucket, &row);
            out.push(statement);
            assert(statements(out@) =~= earlier.push(health_upsert(bucket, row)));
        }
        assert(statements(out@) =~= before + health_upserts(next));
        i += 1;
    }
    assert(health@.take(i as int) =~= health@);
    assert(statements(out@) =~= bucket_upserts(batch.buckets@) + day_upserts(batch.days@)
        + health_upserts(health@));
    proof {
        lemma_flush(out@, batch.buckets@, batch.days@, health@);
    }
    out
}

/// How many statements it takes to write rows two thousand at a time.
pub open spec fn parts(rows: nat) -> int {
    (rows + 1999) as int / 2000
}

/// How many rows the statement in one place writes.
pub open spec fn part_len(rows: nat, c: int) -> nat {
    (if 2000 * (c + 1) <= rows {
        2000
    } else {
        rows - 2000 * c
    }) as nat
}

/// How many health rows are for a window.
pub open spec fn windows(rows: Seq<HealthRow>) -> int
    decreases rows.len(),
{
    if rows.len() == 0 {
        0
    } else if rows.last().bucket is Some {
        windows(rows.drop_last()) + 1
    } else {
        windows(rows.drop_last())
    }
}

proof fn lemma_bucket_params(out: Seq<Statement>, at: int, rows: Seq<StatDelta>)
    requires
        0 <= at,
        at + parts(rows.len()) <= out.len(),
        forall|c: int|
            0 <= c < parts(rows.len()) ==> (#[trigger] out[at + c])@ == bucket_upsert(chunk(rows, c)),
    ensures
        forall|j: int|
            0 <= j < rows.len() ==> ({
                let row = #[trigger] rows[j];
                let params = out[at + j / 2000].params@;
                &&& params[6 * (j % 2000)] == SqlValue::Instant(row.key.bucket)
                &&& params[6 * (j % 2000) + 1] == SqlValue::Address(row.key.addr)
                &&& params[6 * (j % 2000) + 2] == SqlValue::Int8(row.counters.intra_rx)
                &&& params[6 * (j % 2000) + 3] == SqlValue::Int8(row.counters.intra_tx)
                &&& params[6 * (j % 2000) + 4] == SqlValue::Int8(row.counters.ext_rx)
                &&& params[6 * (j % 2000) + 5] == SqlValue::Int8(row.counters.ext_tx)
            }),
{
    assert forall|j: int| 0 <= j < rows.len() implies ({
        let row = #[trigger] rows[j];
        let params = out[at + j / 2000].params@;
        &&& params[6 * (j % 2000)] == SqlValue::Instant(row.key.bucket)
        &&& params[6 * (j % 2000) + 1] == SqlValue::Address(row.key.addr)
        &&& params[6 * (j % 2000) + 2] == SqlValue::Int8(row.counters.intra_rx)
        &&& params[6 * (j % 2000) + 3] == SqlValue::Int8(row.counters.intra_tx)
        &&& params[6 * (j % 2000) + 4] == SqlValue::Int8(row.counters.ext_rx)
        &&& params[6 * (j % 2000) + 5] == SqlValue::Int8(row.counters.ext_tx)
    }) by {
        let part = chunk(rows, j / 2000);
        let by_row = bucket_value_rows(part);
        chunks_hold_every_row(rows, j, j / 2000);
        let statement = out[at + j / 2000];
        assert(statement@ == bucket_upsert(part));
        assert(by_row[j % 2000] == bucket_values(rows[j]));
        lemma_cell(statement.params@, by_row, 6, j % 2000, 0);
        lemma_cell(statement.params@, by_row, 6, j % 2000, 1);
        lemma_cell(statement.params@, by_row, 6, j % 2000, 2);
        lemma_cell(statement.params@, by_row, 6, j % 2000, 3);
        lemma_cell(statement.params@, by_row, 6, j % 2000, 4);
        lemma_cell(statement.params@, by_row, 6, j % 2000, 5);
    }
}

proof fn lemma_day_params(out: Seq<Statement>, at: int, rows: Seq<DayDelta>)
    requires
        0 <= at,
        at + parts(rows.len()) <= out.len(),
        forall|c: int|
            0 <= c < parts(rows.len()) ==> (#[trigger] out[at + c])@ == day_upsert(chunk(rows, c)),
    ensures
        forall|j: int|
            0 <= j < rows.len() ==> ({
                let row = #[trigger] rows[j];
                let params = out[at + j / 2000].params@;
                &&& params[6 * (j % 2000)] == SqlValue::Date(row.day)
                &&& params[6 * (j % 2000) + 1] == SqlValue::Address(row.addr)
                &&& params[6 * (j % 2000) + 2] == SqlValue::Int8(row.counters.intra_rx)
                &&& params[6 * (j % 2000) + 3] == SqlValue::Int8(row.counters.intra_tx)
                &&& params[6 * (j % 2000) + 4] == SqlValue::Int8(row.counters.ext_rx)
                &&& params[6 * (j % 2000) + 5] == SqlValue::Int8(row.counters.ext_tx)
            }),
{
    assert forall|j: int| 0 <= j < rows.len() implies ({
        let row = #[trigger] rows[j];
        let params = out[at + j / 2000].params@;
        &&& params[6 * (j % 2000)] == SqlValue::Date(row.day)
        &&& params[6 * (j % 2000) + 1] == SqlValue::Address(row.addr)
        &&& params[6 * (j % 2000) + 2] == SqlValue::Int8(row.counters.intra_rx)
        &&& params[6 * (j % 2000) + 3] == SqlValue::Int8(row.counters.intra_tx)
        &&& params[6 * (j % 2000) + 4] == SqlValue::Int8(row.counters.ext_rx)
        &&& params[6 * (j % 2000) + 5] == SqlValue::Int8(row.counters.ext_tx)
    }) by {
        let part = chunk(rows, j / 2000);
        let by_row = day_value_rows(part);
        chunks_hold_every_row(rows, j, j / 2000);
        let statement = out[at + j / 2000];
        assert(statement@ == day_upsert(part));
        assert(by_row[j % 2000] == day_values(rows[j]));
        lemma_cell(statement.params@, by_row, 6, j % 2000, 0);
        lemma_cell(statement.params@, by_row, 6, j % 2000, 1);
        lemma_cell(statement.params@, by_row, 6, j % 2000, 2);
        lemma_cell(statement.params@, by_row, 6, j % 2000, 3);
        lemma_cell(statement.params@, by_row, 6, j % 2000, 4);
        lemma_cell(statement.params@, by_row, 6, j % 2000, 5);
    }
}

proof fn lemma_health_params(out: Seq<Statement>, at: int, rows: Seq<HealthRow>)
    requires
        0 <= at,
        at + windows(rows) <= out.len(),
        forall|c: int|
            0 <= c < windows(rows) ==> (#[trigger] out[at + c])@ == health_upserts(rows)[c],
    ensures
        forall|j: int|
            0 <= j < rows.len() ==> ({
                let row = #[trigger] rows[j];
                let params = out[at + windows(rows.take(j))].params@;
                row.bucket matches Some(bucket) ==> {
                    &&& params.len() == 12
                    &&& params[0] == SqlValue::Instant(bucket)
                    &&& params[1] == SqlValue::Int8(row.packets_received)
                    &&& params[2] == SqlValue::Int8(row.flows_parsed)
                    &&& params[3] == SqlValue::Int8(row.parse_failures)
                    &&& params[4] == SqlValue::Int8(row.seq_gap)
                    &&& params[5] == SqlValue::Int8(row.flows_matched)
                    &&& params[6] == SqlValue::Int8(row.rows_written)
                    &&& params[7] == SqlValue::Int8(row.db_failures)
                    &&& params[8] == SqlValue::OptInt8(row.clock_skew_min_ms)
                    &&& params[9] == SqlValue::OptInt8(row.clock_skew_max_ms)
                    &&& params[10] == SqlValue::OptInt8(row.clock_skew_last_ms)
                    &&& params[11] == SqlValue::Int8(row.clock_skew_rejects)
                }
            }),
{
    assert forall|j: int| 0 <= j < rows.len() implies ({
        let row = #[trigger] rows[j];
        let params = out[at + windows(rows.take(j))].params@;
        row.bucket matches Some(bucket) ==> {
            &&& params.len() == 12
            &&& params[0] == SqlValue::Instant(bucket)
            &&& params[1] == SqlValue::Int8(row.packets_received)
            &&& params[2] == SqlValue::Int8(row.flows_parsed)
            &&& params[3] == SqlValue::Int8(row.parse_failures)
            &&& params[4] == SqlValue::Int8(row.seq_gap)
            &&& params[5] == SqlValue::Int8(row.flows_matched)
            &&& params[6] == SqlValue::Int8(row.rows_written)
            &&& params[7] == SqlValue::Int8(row.db_failures)
            &&& params[8] == SqlValue::OptInt8(row.clock_skew_min_ms)
            &&& params[9] == SqlValue::OptInt8(row.clock_skew_max_ms)
            &&& params[10] == SqlValue::OptInt8(row.clock_skew_last_ms)
            &&& params[11] == SqlValue::Int8(row.clock_skew_rejects)
        }
    }) by {
        if let Some(bucket) = rows[j].bucket {
            lemma_window(rows, j);
            let statement = out[at + windows(rows.take(j))];
            let params = statement.params@;
            assert(statement@ == health_upsert(bucket, rows[j]));
            assert(statement@.params == values(params));
            assert(values(params) == health_values(bucket, rows[j]));
            assert(params.len() == values(params).len());
            assert forall|k: int| 0 <= k < 12 implies (#[trigger] params[k])@ == health_values(
                bucket,
                rows[j],
            )[k] by {
                assert(values(params)[k] == params[k]@);
            }
        }
    }
}

/// What the statements hold that write what waits, one parameter after the other.
proof fn lemma_flush(
    out: Seq<Statement>,
    buckets: Seq<StatDelta>,
    days: Seq<DayDelta>,
    health: Seq<HealthRow>,
)
    requires
        statements(out) == bucket_upserts(buckets) + day_upserts(days) + health_upserts(health),
    ensures
        out.len() == parts(buckets.len()) + parts(days.len()) + windows(health),
        forall|c: int|
            0 <= c < parts(buckets.len()) ==> (#[trigger] out[c]).failure@
                == "flow_stat_5m upsert failed"@,
        forall|c: int|
            0 <= c < parts(days.len()) ==> (#[trigger] out[parts(buckets.len()) + c]).failure@
                == "flow_stat_1d upsert failed"@,
        forall|c: int|
            0 <= c < windows(health) ==> ({
                let statement = #[trigger] out[parts(buckets.len()) + parts(days.len()) + c];
                &&& statement.failure@ == "collector_health_1m upsert failed"@
                &&& statement.sql@ == "INSERT INTO collector_health_1m (bucket,packets_received,flows_parsed,\
                        parse_failures,seq_gap,flows_matched,rows_written,db_failures,\
                        clock_skew_min_ms,clock_skew_max_ms,clock_skew_last_ms,\
                        clock_skew_rejects) VALUES ($1,$2,$3,$4,$5,$6,$7,$8,$9,$10,$11,$12) ON \
                        CONFLICT (bucket) DO UPDATE SET packets_received = \
                        collector_health_1m.packets_received + EXCLUDED.packets_received,\
                        flows_parsed     = collector_health_1m.flows_parsed     + \
                        EXCLUDED.flows_parsed,parse_failures   = \
                        collector_health_1m.parse_failures   + EXCLUDED.parse_failures,seq_gap          \
                        = collector_health_1m.seq_gap          + EXCLUDED.seq_gap,flows_matched    \
                        = collector_health_1m.flows_matched    + EXCLUDED.flows_matched,\
                        rows_written     = collector_health_1m.rows_written     + \
                        EXCLUDED.rows_written,db_failures      = \
                        collector_health_1m.db_failures      + EXCLUDED.db_failures,\
                        clock_skew_min_ms  = LEAST(collector_health_1m.clock_skew_min_ms, \
                        EXCLUDED.clock_skew_min_ms),clock_skew_max_ms  = \
                        GREATEST(collector_health_1m.clock_skew_max_ms, \
                        EXCLUDED.clock_skew_max_ms),clock_skew_last_ms = \
                        COALESCE(EXCLUDED.clock_skew_last_ms, \
                        collector_health_1m.clock_skew_last_ms),clock_skew_rejects = \
                        collector_health_1m.clock_skew_rejects + EXCLUDED.clock_skew_rejects"@
            }),
        forall|c: int|
            0 <= c < parts(buckets.len()) ==> (#[trigger] out[c]).sql@
                == "INSERT INTO flow_stat_5m \
                (bucket,addr,intra_rx_bytes,intra_tx_bytes,ext_rx_bytes,ext_tx_bytes) VALUES "@
                + placeholder_rows(part_len(buckets.len(), c), 6) + " ON CONFLICT (bucket,addr) DO UPDATE SET \
                intra_rx_bytes = flow_stat_5m.intra_rx_bytes + EXCLUDED.intra_rx_bytes,\
                intra_tx_bytes = flow_stat_5m.intra_tx_bytes + EXCLUDED.intra_tx_bytes,\
                ext_rx_bytes   = flow_stat_5m.ext_rx_bytes   + EXCLUDED.ext_rx_bytes,\
                ext_tx_bytes   = flow_stat_5m.ext_tx_bytes   + EXCLUDED.ext_tx_bytes"@,
        forall|j: int|
            0 <= j < buckets.len() ==> ({
                let row = #[trigger] buckets[j];
                let params = out[j / 2000].params@;
                &&& params[6 * (j % 2000)] == SqlValue::Instant(row.key.bucket)
                &&& params[6 * (j % 2000) + 1] == SqlValue::Address(row.key.addr)
                &&& params[6 * (j % 2000) + 2] == SqlValue::Int8(row.counters.intra_rx)
                &&& params[6 * (j % 2000) + 3] == SqlValue::Int8(row.counters.intra_tx)
                &&& params[6 * (j % 2000) + 4] == SqlValue::Int8(row.counters.ext_rx)
                &&& params[6 * (j % 2000) + 5] == SqlValue::Int8(row.counters.ext_tx)
            }),
        forall|c: int|
            0 <= c < parts(days.len()) ==> (#[trigger] out[parts(buckets.len()) + c]).sql@
                == "INSERT INTO flow_stat_1d \
                (day,addr,intra_rx_bytes,intra_tx_bytes,ext_rx_bytes,ext_tx_bytes) VALUES "@
                + placeholder_rows(part_len(days.len(), c), 6) + " ON CONFLICT (day,addr) DO UPDATE SET \
                intra_rx_bytes = flow_stat_1d.intra_rx_bytes + EXCLUDED.intra_rx_bytes,\
                intra_tx_bytes = flow_stat_1d.intra_tx_bytes + EXCLUDED.intra_tx_bytes,\
                ext_rx_bytes   = flow_stat_1d.ext_rx_bytes   + EXCLUDED.ext_rx_bytes,\
                ext_tx_bytes   = flow_stat_1d.ext_tx_bytes   + EXCLUDED.ext_tx_bytes"@,
        forall|j: int|
            0 <= j < days.len() ==> ({
                let row = #[trigger] days[j];
                let params = out[parts(buckets.len()) + j / 2000].params@;
                &&& params[6 * (j % 2000)] == SqlValue::Date(row.day)
                &&& params[6 * (j % 2000) + 1] == SqlValue::Address(row.addr)
                &&& params[6 * (j % 2000) + 2] == SqlValue::Int8(row.counters.intra_rx)
                &&& params[6 * (j % 2000) + 3] == SqlValue::Int8(row.counters.intra_tx)
                &&& params[6 * (j % 2000) + 4] == SqlValue::Int8(row.counters.ext_rx)
                &&& params[6 * (j % 2000) + 5] == SqlValue::Int8(row.counters.ext_tx)
            }),
        forall|j: int|
            0 <= j < health.len() ==> ({
                let row = #[trigger] health[j];
                let params = out[parts(buckets.len()) + parts(days.len()) + windows(
                    health.take(j),
                )].params@;
                row.bucket matches Some(bucket) ==> {
                    &&& params.len() == 12
                    &&& params[0] == SqlValue::Instant(bucket)
                    &&& params[1] == SqlValue::Int8(row.packets_received)
                    &&& params[2] == SqlValue::Int8(row.flows_parsed)
                    &&& params[3] == SqlValue::Int8(row.parse_failures)
                    &&& params[4] == SqlValue::Int8(row.seq_gap)
                    &&& params[5] == SqlValue::Int8(row.flows_matched)
                    &&& params[6] == SqlValue::Int8(row.rows_written)
                    &&& params[7] == SqlValue::Int8(row.db_failures)
                    &&& params[8] == SqlValue::OptInt8(row.clock_skew_min_ms)
                    &&& params[9] == SqlValue::OptInt8(row.clock_skew_max_ms)
                    &&& params[10] == SqlValue::OptInt8(row.clock_skew_last_ms)
                    &&& params[11] == SqlValue::Int8(row.clock_skew_rejects)
                }
            }),
{
    let nb = parts(buckets.len());
    let nd = parts(days.len());
    let all = statements(out);
    assert(all.len() == out.len());
    lemma_windows(health);
    assert forall|c: int| 0 <= c < nb implies (#[trigger] out[c])@ == bucket_upsert(
        chunk(buckets, c),
    ) && chunk(buckets, c).len() == part_len(buckets.len(), c) by {
        assert(all[c] == bucket_upserts(buckets)[c]);
    }
    assert forall|c: int| 0 <= c < nb implies (#[trigger] out[0 + c])@ == bucket_upsert(
        chunk(buckets, c),
    ) by {
        assert(out[c]@ == bucket_upsert(chunk(buckets, c)));
    }
    assert forall|c: int| 0 <= c < nd implies (#[trigger] out[nb + c])@ == day_upsert(chunk(days, c))
        && chunk(days, c).len() == part_len(days.len(), c) by {
        assert(all[nb + c] == day_upserts(days)[c]);
    }
    assert forall|c: int| 0 <= c < windows(health) implies (#[trigger] out[nb + nd + c])@
        == health_upserts(health)[c] by {
        assert(all[nb + nd + c] == health_upserts(health)[c]);
    }
    assert forall|c: int| 0 <= c < windows(health) implies ({
        let statement = #[trigger] out[nb + nd + c];
        statement.sql@ == HEALTH_UPSERT@ && statement.failure@ == "collector_health_1m upsert failed"@
    }) by {
        lemma_health_texts(health, c);
    }
    lemma_bucket_params(out, 0, buckets);
    lemma_day_params(out, nb, days);
    lemma_health_params(out, nb + nd, health);
}

proof fn lemma_health_texts(health: Seq<HealthRow>, c: int)
    requires
        0 <= c < windows(health),
    ensures
        health_upserts(health)[c].sql == HEALTH_UPSERT@,
        health_upserts(health)[c].failure == "collector_health_1m upsert failed"@,
    decreases health.len(),
{
    let less = health.drop_last();
    lemma_windows(less);
    if c < windows(less) {
        lemma_health_texts(less, c);
    }
}

proof fn lemma_windows(health: Seq<HealthRow>)
    ensures
        health_upserts(health).len() == windows(health),
    decreases health.len(),
{
    if health.len() > 0 {
        lemma_windows(health.drop_last());
    }
}

/// The statement of a health row that is for a window stands where the count of those before it says.
proof fn lemma_window(health: Seq<HealthRow>, j: int)
    requires
        0 <= j < health.len(),
        health[j].bucket is Some,
    ensures
        0 <= windows(health.take(j)) < windows(health),
        health_upserts(health)[windows(health.take(j))] == health_upsert(
            health[j].bucket->0,
            health[j],
        ),
    decreases health.len(),
{
    let head = health.drop_last();
    lemma_windows(head);
    if j < head.len() {
        lemma_window(head, j);
        assert(head.take(j) =~= health.take(j));
    } else {
        assert(head =~= health.take(j));
    }
}

fn push_bucket_upserts(out: &mut Vec<Statement>, rows: &Vec<StatDelta>)
    ensures
        statements(final(out)@) == statements(old(out)@) + bucket_upserts(rows@),
{
    let ghost before = statements(out@);
    let ghost all = bucket_upserts(rows@);
    let ghost mut done: int = 0;
    let mut from: usize = 0;
    while from < rows.len()
        invariant
            from <= rows.len(),
            0 <= done <= all.len(),
            all == bucket_upserts(rows@),
            from < rows.len() ==> from == done * UPSERT_CHUNK_ROWS,
            from == rows.len() ==> done == all.len(),
            statements(out@) == before + all.take(done),
        decreases rows.len() - from,
    {
        let to: usize = chunk_end(from, rows.len());
        let ghost earlier = statements(out@);
        let statement = write_buckets(rows, from, to);
        out.push(statement);
        proof {
            assert(done < all.len());
            assert(rows@.subrange(from as int, to as int) =~= chunk(rows@, done));
            assert(statements(out@) =~= earlier.push(all[done]));
            assert(all.take(done + 1) =~= all.take(done).push(all[done]));
            done = done + 1;
            assert(statements(out@) =~= before + all.take(done));
        }
        from = to;
    }
    assert(all.take(done) =~= all);
}

fn push_day_upserts(out: &mut Vec<Statement>, rows: &Vec<DayDelta>)
    ensures
        statements(final(out)@) == statements(old(out)@) + day_upserts(rows@),
{
    let ghost before = statements(out@);
    let ghost all = day_upserts(rows@);
    let ghost mut done: int = 0;
    let mut from: usize = 0;
    while from < rows.len()
        invariant
            from <= rows.len(),
            0 <= done <= all.len(),
            all == day_upserts(rows@),
            from < rows.len() ==> from == done * UPSERT_CHUNK_ROWS,
            from == rows.len() ==> done == all.len(),
            statements(out@) == before + all.take(done),
        decreases rows.len() - from,
    {
        let to: usize = chunk_end(from, rows.len());
        let ghost earlier = statements(out@);
        let statement = write_days(rows, from, to);
        out.push(statement);
        proof {
            assert(done < all.len());
            assert(rows@.subrange(from as int, to as int) =~= chunk(rows@, done));
            assert(statements(out@) =~= earlier.push(all[done]));
            assert(all.take(done + 1) =~= all.take(done).push(all[done]));
            done = done + 1;
            assert(statements(out@) =~= before + all.take(done));
        }
        from = to;
    }
    assert(all.take(done) =~= all);
}

// ── laws of the statements ──────────────────────────────────────────────────

/// Chunks leave no row out and take none twice: row `j` stands in the chunk, and at the place in it,
/// that its number gives, and no chunk is empty or too long.
pub proof fn chunks_hold_every_row<T>(rows: Seq<T>, j: int, i: int)
    requires
        0 <= j < rows.len(),
        0 <= i < chunk_count(rows.len()),
    ensures
        0 < chunk(rows, i).len() <= UPSERT_CHUNK_ROWS,
        (j / UPSERT_CHUNK_ROWS as int) < chunk_count(rows.len()),
        (j % UPSERT_CHUNK_ROWS as int) < chunk(rows, j / UPSERT_CHUNK_ROWS as int).len(),
        chunk(rows, j / UPSERT_CHUNK_ROWS as int)[j % UPSERT_CHUNK_ROWS as int] == rows[j],
        i < chunk_count(rows.len()) - 1 ==> chunk(rows, i).len() == UPSERT_CHUNK_ROWS,
{
}

/// No statement has more parameters than PostgreSQL takes: not one that writes as many raw rows as
/// are gathered, nor one that writes a chunk of buckets or days.
pub proof fn statements_stay_within_the_limit(
    raw: Seq<FlowRow>,
    buckets: Seq<StatDelta>,
    days: Seq<DayDelta>,
)
    requires
        raw.len() <= BATCH_SIZE,
        buckets.len() <= UPSERT_CHUNK_ROWS,
        days.len() <= UPSERT_CHUNK_ROWS,
    ensures
        raw_insert(raw).params.len() == raw.len() * RAW_COLUMNS <= MAX_PARAMETERS,
        bucket_upsert(buckets).params.len() == buckets.len() * STAT_COLUMNS <= MAX_PARAMETERS,
        day_upsert(days).params.len() == days.len() * STAT_COLUMNS <= MAX_PARAMETERS,
{
    lemma_count(raw_rows(raw), RAW_COLUMNS as nat);
    lemma_count(bucket_value_rows(buckets), STAT_COLUMNS as nat);
    lemma_count(day_value_rows(days), STAT_COLUMNS as nat);
}

// ── the intranet in use ─────────────────────────────────────────────────────

/// Asks for the boundary that was last in use.
pub const CIDR_QUERY: &'static str = "SELECT value FROM app_config WHERE key = 'intra_cidr_last_used'";

/// Notes the boundary that is in use.
pub const CIDR_UPSERT: &'static str =
    "INSERT INTO app_config (key, value) VALUES ('intra_cidr_last_used', $1) \
    ON CONFLICT (key) DO UPDATE SET value = EXCLUDED.value";

/// What is said when the boundary that was last in use cannot be read.
pub const CIDR_QUERY_FAILURE: &'static str =
    "failed to read app_config \u{2014} has the schema been applied? run --migrate first";

/// Asks for the boundary that was last in use.
pub fn read_intra_cidr() -> (r: Statement)
    ensures
        r@ == (StatementModel {
            sql: CIDR_QUERY@,
            params: Seq::empty(),
            failure: CIDR_QUERY_FAILURE@,
        }),
        r.sql@ == "SELECT value FROM app_config WHERE key = 'intra_cidr_last_used'"@,
        r.params@.len() == 0,
        r.failure@ == "failed to read app_config \u{2014} has the schema been applied? run --migrate first"@,
{
    without_params(CIDR_QUERY, CIDR_QUERY_FAILURE)
}

/// Notes the boundary that is in use.
pub fn record_intra_cidr(cidr: &str) -> (r: Statement)
    ensures
        r@ == (StatementModel {
            sql: CIDR_UPSERT@,
            params: seq![SqlModel::Text(cidr@)],
            failure: "failed to record the intranet CIDR in use"@,
        }),
        r.sql@ == "INSERT INTO app_config (key, value) VALUES ('intra_cidr_last_used', $1) ON CONFLICT \
            (key) DO UPDATE SET value = EXCLUDED.value"@,
        r.params@.len() == 1 && r.params@[0]@ == SqlModel::Text(cidr@),
        r.failure@ == "failed to record the intranet CIDR in use"@,
{
    let mut params: Vec<SqlValue> = Vec::new();
    params.push(SqlValue::Text(cidr.to_owned()));
    assert(values(params@) =~= seq![SqlModel::Text(cidr@)]);
    Statement {
        sql: CIDR_UPSERT.to_owned(),
        params,
        failure: "failed to record the intranet CIDR in use",
    }
}

// ── rebuilding buckets ──────────────────────────────────────────────────────

/// Counts the raw rows of a range.
pub const COVERAGE_QUERY: &'static str =
    "SELECT count(*)::bigint FROM flow_raw WHERE ts >= $1 AND ts < $2";

/// Counts the bucket rows of a range.
pub const EXISTING_QUERY: &'static str =
    "SELECT count(*)::bigint FROM flow_stat_5m WHERE bucket >= $1 AND bucket < $2";

/// Makes a table for the addresses that match as senders.
pub const SENDER_TABLE: &'static str =
    "CREATE TEMP TABLE filter_senders (addr inet PRIMARY KEY) ON COMMIT DROP";

/// Makes a table for the addresses that match as receivers.
pub const RECEIVER_TABLE: &'static str =
    "CREATE TEMP TABLE filter_receivers (addr inet PRIMARY KEY) ON COMMIT DROP";

/// Fills the table of senders.
pub const SENDER_INSERT: &'static str =
    "INSERT INTO filter_senders (addr) SELECT unnest($1::inet[])";

/// Fills the table of receivers.
pub const RECEIVER_INSERT: &'static str =
    "INSERT INTO filter_receivers (addr) SELECT unnest($1::inet[])";

/// Lets the planner know how many senders there are.
pub const SENDER_ANALYZE: &'static str = "ANALYZE filter_senders";

/// Lets the planner know how many receivers there are.
pub const RECEIVER_ANALYZE: &'static str = "ANALYZE filter_receivers";

/// Clears the buckets of a range, for the addresses of the filter only.
pub const RANGE_DELETE: &'static str = "DELETE FROM flow_stat_5m \
    WHERE bucket >= $1 AND bucket < $2 \
    AND addr IN (SELECT addr FROM filter_senders UNION SELECT addr FROM filter_receivers)";

/// How the statement starts that fills the buckets of a range from the raw rows.
pub const REBUILD_START: &'static str = "INSERT INTO flow_stat_5m \
    (bucket, addr, intra_rx_bytes, intra_tx_bytes, ext_rx_bytes, ext_tx_bytes) \
    SELECT bucket, addr, SUM(irxb), SUM(itxb), SUM(erxb), SUM(etxb) \
    FROM ( \
    SELECT time_bucket(make_interval(secs => ";

/// How it goes on after the width of a bucket.
pub const REBUILD_SENT: &'static str = "), r.ts) AS bucket, \
    r.srcaddr AS addr, \
    0::bigint AS irxb, \
    CASE WHEN r.dstaddr <<= $3::text::inet \
    THEN r.d_octets * r.sampling_interval ELSE 0 END AS itxb, \
    0::bigint AS erxb, \
    CASE WHEN r.dstaddr <<= $3::text::inet \
    THEN 0 ELSE r.d_octets * r.sampling_interval END AS etxb \
    FROM flow_raw r JOIN filter_senders m ON m.addr = r.srcaddr \
    WHERE r.ts >= $1 AND r.ts < $2 \
    UNION ALL \
    SELECT time_bucket(make_interval(secs => ";

/// How it ends after the width of a bucket.
pub const REBUILD_RECEIVED: &'static str = "), r.ts), \
    r.dstaddr, \
    CASE WHEN r.srcaddr <<= $3::text::inet \
    THEN r.d_octets * r.sampling_interval ELSE 0 END, \
    0::bigint, \
    CASE WHEN r.srcaddr <<= $3::text::inet \
    THEN 0 ELSE r.d_octets * r.sampling_interval END, \
    0::bigint \
    FROM flow_raw r JOIN filter_receivers m ON m.addr = r.dstaddr \
    WHERE r.ts >= $1 AND r.ts < $2 \
    ) s \
    GROUP BY bucket, addr";

/// The statement that fills the buckets of a range from the raw rows, with the width of a bucket
/// written into it.
pub open spec fn rebuild_sql() -> Seq<char> {
    REBUILD_START@ + text::decimal(BUCKET_SECONDS as nat) + REBUILD_SENT@ + text::decimal(
        BUCKET_SECONDS as nat,
    ) + REBUILD_RECEIVED@
}

/// A bucket is three hundred seconds wide in the statement, for what is sent as for what is received.
pub proof fn the_width_of_a_bucket_is_written_out()
    ensures
        rebuild_sql() == REBUILD_START@ + "300"@ + REBUILD_SENT@ + "300"@ + REBUILD_RECEIVED@,
{
    reveal_strlit("300");
    reveal_with_fuel(text::decimal, 3);
    assert(text::decimal(300) =~= "300"@);
}

/// The ends of a range as parameters.
pub open spec fn range_params(from: Timestamp, to: Timestamp) -> Seq<SqlModel> {
    seq![SqlModel::Instant(from), SqlModel::Instant(to)]
}

fn range_values(from: Timestamp, to: Timestamp) -> (r: Vec<SqlValue>)
    ensures
        values(r@) == range_params(from, to),
        r@.len() == 2 && r@[0] == SqlValue::Instant(from) && r@[1] == SqlValue::Instant(to),
{
    let mut params: Vec<SqlValue> = Vec::new();
    params.push(SqlValue::Instant(from));
    params.push(SqlValue::Instant(to));
    assert(values(params@) =~= range_params(from, to));
    params
}

fn without_params(sql: &str, failure: &'static str) -> (r: Statement)
    ensures
        r@ == (StatementModel { sql: sql@, params: Seq::empty(), failure: failure@ }),
        r.params@.len() == 0,
{
    let params: Vec<SqlValue> = Vec::new();
    assert(values(params@) =~= Seq::empty());
    Statement { sql: sql.to_owned(), params, failure }
}

/// Counts the raw rows of a range.
pub fn count_raw_rows(from: Timestamp, to: Timestamp) -> (r: Statement)
    ensures
        r@ == (StatementModel {
            sql: COVERAGE_QUERY@,
            params: range_params(from, to),
            failure: "failed to check raw coverage for the range"@,
        }),
        r.sql@ == "SELECT count(*)::bigint FROM flow_raw WHERE ts >= $1 AND ts < $2"@,
        r.params@.len() == 2,
        r.params@[0] == SqlValue::Instant(from) && r.params@[1] == SqlValue::Instant(to),
        r.failure@ == "failed to check raw coverage for the range"@,
{
    Statement {
        sql: COVERAGE_QUERY.to_owned(),
        params: range_values(from, to),
        failure: "failed to check raw coverage for the range",
    }
}

/// Counts the bucket rows of a range.
pub fn count_bucket_rows(from: Timestamp, to: Timestamp) -> (r: Statement)
    ensures
        r@ == (StatementModel {
            sql: EXISTING_QUERY@,
            params: range_params(from, to),
            failure: "failed to check existing statistics for the range"@,
        }),
        r.sql@ == "SELECT count(*)::bigint FROM flow_stat_5m WHERE bucket >= $1 AND bucket < $2"@,
        r.params@.len() == 2,
        r.params@[0] == SqlValue::Instant(from) && r.params@[1] == SqlValue::Instant(to),
        r.failure@ == "failed to check existing statistics for the range"@,
{
    Statement {
        sql: EXISTING_QUERY.to_owned(),
        params: range_values(from, to),
        failure: "failed to check existing statistics for the range",
    }
}

/// The statements that rebuild the buckets of a range, when the senders and the receivers that match
/// are given in some order. Traffic is counted as sent for the senders alone, and as received for
/// the receivers alone.
pub open spec fn rebuild(
    from: Timestamp,
    to: Timestamp,
    cidr: Seq<char>,
    senders: Seq<u32>,
    receivers: Seq<u32>,
) -> Seq<StatementModel> {
    seq![
        StatementModel { sql: SENDER_TABLE@, params: Seq::empty(), failure: TABLE_FAILURE@ },
        StatementModel { sql: RECEIVER_TABLE@, params: Seq::empty(), failure: TABLE_FAILURE@ },
        StatementModel {
            sql: SENDER_INSERT@,
            params: seq![SqlModel::Addresses(senders)],
            failure: FILL_FAILURE@,
        },
        StatementModel {
            sql: RECEIVER_INSERT@,
            params: seq![SqlModel::Addresses(receivers)],
            failure: FILL_FAILURE@,
        },
        StatementModel { sql: SENDER_ANALYZE@, params: Seq::empty(), failure: "ANALYZE failed"@ },
        StatementModel { sql: RECEIVER_ANALYZE@, params: Seq::empty(), failure: "ANALYZE failed"@ },
        StatementModel {
            sql: RANGE_DELETE@,
            params: range_params(from, to),
            failure: "failed to clear the range"@,
        },
        StatementModel {
            sql: rebuild_sql(),
            params: range_params(from, to).push(SqlModel::Text(cidr)),
            failure: "flow_stat_5m recompute insert failed"@,
        },
    ]
}

/// What is said when a table of addresses cannot be made.
pub const TABLE_FAILURE: &'static str = "failed to create the temporary address table";

/// What is said when a table of addresses cannot be filled.
pub const FILL_FAILURE: &'static str = "failed to populate the temporary address table";

/// Whether addresses are those of a set, each once.
pub open spec fn lists_addresses(addresses: Seq<u32>, set: Set<u32>) -> bool {
    addresses.to_set() == set && addresses.no_duplicates()
}

/// Whether statements rebuild the buckets of a range for these senders and receivers.
pub open spec fn rebuilds(
    steps: Seq<StatementModel>,
    from: Timestamp,
    to: Timestamp,
    cidr: Seq<char>,
    senders: Set<u32>,
    receivers: Set<u32>,
) -> bool {
    exists|s: Seq<u32>, d: Seq<u32>|
        lists_addresses(s, senders) && lists_addresses(d, receivers) && steps == #[trigger] rebuild(
            from,
            to,
            cidr,
            s,
            d,
        )
}

/// Whether a parameter names the addresses of a set, each once.
pub open spec fn names_addresses(param: SqlModel, set: Set<u32>) -> bool {
    match param {
        SqlModel::Addresses(list) => list.no_duplicates() && forall|ip: u32| #[trigger]
            list.contains(ip) <==> set.contains(ip),
        _ => false,
    }
}

/// However the statements that rebuild a range come about, they are eight. The third names the senders
/// and the fourth the receivers, to the tables that bear their names. The one that clears and the one
/// that fills both look for the start of the range at `$1` and for its end at `$2`, and find them there;
/// the one that fills looks for the intranet at `$3`, and finds it there.
pub proof fn a_rebuild_clears_and_fills_one_range(
    steps: Seq<StatementModel>,
    from: Timestamp,
    to: Timestamp,
    cidr: Seq<char>,
    senders: Set<u32>,
    receivers: Set<u32>,
)
    requires
        rebuilds(steps, from, to, cidr, senders, receivers),
    ensures
        steps.len() == 8,
        steps[0].sql == "CREATE TEMP TABLE filter_senders (addr inet PRIMARY KEY) ON COMMIT DROP"@,
        steps[1].sql == "CREATE TEMP TABLE filter_receivers (addr inet PRIMARY KEY) ON COMMIT DROP"@,
        steps[4].sql == "ANALYZE filter_senders"@,
        steps[5].sql == "ANALYZE filter_receivers"@,
        steps[7].sql == "INSERT INTO flow_stat_5m (bucket, addr, intra_rx_bytes, intra_tx_bytes, \
            ext_rx_bytes, ext_tx_bytes) SELECT bucket, addr, SUM(irxb), SUM(itxb), SUM(erxb), \
            SUM(etxb) FROM ( SELECT time_bucket(make_interval(secs => "@ + "300"@
            + "), r.ts) AS bucket, r.srcaddr AS addr, 0::bigint AS irxb, CASE WHEN r.dstaddr <<= \
            $3::text::inet THEN r.d_octets * r.sampling_interval ELSE 0 END AS itxb, 0::bigint \
            AS erxb, CASE WHEN r.dstaddr <<= $3::text::inet THEN 0 ELSE r.d_octets * \
            r.sampling_interval END AS etxb FROM flow_raw r JOIN filter_senders m ON m.addr = \
            r.srcaddr WHERE r.ts >= $1 AND r.ts < $2 UNION ALL SELECT \
            time_bucket(make_interval(secs => "@ + "300"@
            + "), r.ts), r.dstaddr, CASE WHEN r.srcaddr <<= $3::text::inet THEN r.d_octets * \
            r.sampling_interval ELSE 0 END, 0::bigint, CASE WHEN r.srcaddr <<= $3::text::inet \
            THEN 0 ELSE r.d_octets * r.sampling_interval END, 0::bigint FROM flow_raw r JOIN \
            filter_receivers m ON m.addr = r.dstaddr WHERE r.ts >= $1 AND r.ts < $2 ) s GROUP \
            BY bucket, addr"@,
        steps[0].failure == "failed to create the temporary address table"@,
        steps[1].failure == "failed to create the temporary address table"@,
        steps[2].failure == "failed to populate the temporary address table"@,
        steps[3].failure == "failed to populate the temporary address table"@,
        steps[4].failure == "ANALYZE failed"@ && steps[5].failure == "ANALYZE failed"@,
        steps[6].failure == "failed to clear the range"@,
        steps[7].failure == "flow_stat_5m recompute insert failed"@,
        steps[2].sql == "INSERT INTO filter_senders (addr) SELECT unnest($1::inet[])"@,
        steps[2].params.len() == 1 && names_addresses(steps[2].params[0], senders),
        steps[3].sql == "INSERT INTO filter_receivers (addr) SELECT unnest($1::inet[])"@,
        steps[3].params.len() == 1 && names_addresses(steps[3].params[0], receivers),
        steps[6].sql == "DELETE FROM flow_stat_5m WHERE bucket >= $1 AND bucket < $2 \
            AND addr IN (SELECT addr FROM filter_senders UNION SELECT addr FROM filter_receivers)"@,
        steps[6].params.len() == 2,
        steps[6].params[0] == SqlModel::Instant(from),
        steps[6].params[1] == SqlModel::Instant(to),
        steps[7].sql == rebuild_sql(),
        steps[7].params.len() == 3,
        steps[7].params[0] == SqlModel::Instant(from),
        steps[7].params[1] == SqlModel::Instant(to),
        steps[7].params[2] == SqlModel::Text(cidr),
{
    the_width_of_a_bucket_is_written_out();
    let (s, d) = choose|s: Seq<u32>, d: Seq<u32>|
        lists_addresses(s, senders) && lists_addresses(d, receivers) && steps == #[trigger] rebuild(
            from,
            to,
            cidr,
            s,
            d,
        );
    assert forall|ip: u32| #[trigger] s.contains(ip) <==> senders.contains(ip) by {
        assert(s.to_set().contains(ip) <==> s.contains(ip));
    }
    assert forall|ip: u32| #[trigger] d.contains(ip) <==> receivers.contains(ip) by {
        assert(d.to_set().contains(ip) <==> d.contains(ip));
    }
}

/// A statement that fills a table of addresses.
fn with_addresses(sql: &str, set: &HashSet<u32>) -> (r: Statement)
    ensures
        exists|list: Seq<u32>| #[trigger]
            lists_addresses(list, set@) && r@ == (StatementModel {
                sql: sql@,
                params: seq![SqlModel::Addresses(list)],
                failure: FILL_FAILURE@,
            }),
{
    let list = filter::address_list(set);
    let ghost order = list@;
    let mut params: Vec<SqlValue> = Vec::new();
    params.push(SqlValue::Addresses(list));
    assert(values(params@) =~= seq![SqlModel::Addresses(order)]);
    assert(lists_addresses(order, set@));
    Statement { sql: sql.to_owned(), params, failure: FILL_FAILURE }
}

/// The statements that rebuild the buckets of a range: the last one tells how many rows it made.
///
/// Only the buckets of addresses that the filter selects are cleared, since only those are filled
/// again.
pub fn recompute_5m(
    from: Timestamp,
    to: Timestamp,
    cidr: &str,
    senders: &HashSet<u32>,
    receivers: &HashSet<u32>,
) -> (r: Vec<Statement>)
    ensures
        rebuilds(statements(r@), from, to, cidr@, senders@, receivers@),
        r@.len() == 8,
        r@[0].sql@ == "CREATE TEMP TABLE filter_senders (addr inet PRIMARY KEY) ON COMMIT DROP"@,
        r@[1].sql@ == "CREATE TEMP TABLE filter_receivers (addr inet PRIMARY KEY) ON COMMIT DROP"@,
        r@[4].sql@ == "ANALYZE filter_senders"@,
        r@[5].sql@ == "ANALYZE filter_receivers"@,
        r@[7].sql@ == "INSERT INTO flow_stat_5m (bucket, addr, intra_rx_bytes, intra_tx_bytes, \
            ext_rx_bytes, ext_tx_bytes) SELECT bucket, addr, SUM(irxb), SUM(itxb), SUM(erxb), \
            SUM(etxb) FROM ( SELECT time_bucket(make_interval(secs => "@ + "300"@
            + "), r.ts) AS bucket, r.srcaddr AS addr, 0::bigint AS irxb, CASE WHEN r.dstaddr <<= \
            $3::text::inet THEN r.d_octets * r.sampling_interval ELSE 0 END AS itxb, 0::bigint \
            AS erxb, CASE WHEN r.dstaddr <<= $3::text::inet THEN 0 ELSE r.d_octets * \
            r.sampling_interval END AS etxb FROM flow_raw r JOIN filter_senders m ON m.addr = \
            r.srcaddr WHERE r.ts >= $1 AND r.ts < $2 UNION ALL SELECT \
            time_bucket(make_interval(secs => "@ + "300"@
            + "), r.ts), r.dstaddr, CASE WHEN r.srcaddr <<= $3::text::inet THEN r.d_octets * \
            r.sampling_interval ELSE 0 END, 0::bigint, CASE WHEN r.srcaddr <<= $3::text::inet \
            THEN 0 ELSE r.d_octets * r.sampling_interval END, 0::bigint FROM flow_raw r JOIN \
            filter_receivers m ON m.addr = r.dstaddr WHERE r.ts >= $1 AND r.ts < $2 ) s GROUP \
            BY bucket, addr"@,
        r@[0].failure@ == "failed to create the temporary address table"@,
        r@[1].failure@ == "failed to create the temporary address table"@,
        r@[2].failure@ == "failed to populate the temporary address table"@,
        r@[3].failure@ == "failed to populate the temporary address table"@,
        r@[4].failure@ == "ANALYZE failed"@ && r@[5].failure@ == "ANALYZE failed"@,
        r@[6].failure@ == "failed to clear the range"@,
        r@[7].failure@ == "flow_stat_5m recompute insert failed"@,
        r@[2].sql@ == "INSERT INTO filter_senders (addr) SELECT unnest($1::inet[])"@,
        r@[2].params@.len() == 1 && names_addresses(r@[2].params@[0]@, senders@),
        r@[3].sql@ == "INSERT INTO filter_receivers (addr) SELECT unnest($1::inet[])"@,
        r@[3].params@.len() == 1 && names_addresses(r@[3].params@[0]@, receivers@),
        r@[6].sql@ == "DELETE FROM flow_stat_5m WHERE bucket >= $1 AND bucket < $2 \
            AND addr IN (SELECT addr FROM filter_senders UNION SELECT addr FROM filter_receivers)"@,
        r@[6].params@.len() == 2,
        r@[6].params@[0] == SqlValue::Instant(from) && r@[6].params@[1] == SqlValue::Instant(to),
        r@[7].sql@ == rebuild_sql(),
        r@[7].params@.len() == 3,
        r@[7].params@[0] == SqlValue::Instant(from) && r@[7].params@[1] == SqlValue::Instant(to),
        r@[7].params@[2]@ == SqlModel::Text(cidr@),
{
    let mut out: Vec<Statement> = Vec::new();
    out.push(without_params(SENDER_TABLE, TABLE_FAILURE));
    out.push(without_params(RECEIVER_TABLE, TABLE_FAILURE));
    let fill_senders = with_addresses(SENDER_INSERT, senders);
    let fill_receivers = with_addresses(RECEIVER_INSERT, receivers);
    let ghost s = choose|list: Seq<u32>| #[trigger]
        lists_addresses(list, senders@) && fill_senders@ == (StatementModel {
            sql: SENDER_INSERT@,
            params: seq![SqlModel::Addresses(list)],
            failure: FILL_FAILURE@,
        });
    let ghost d = choose|list: Seq<u32>| #[trigger]
        lists_addresses(list, receivers@) && fill_receivers@ == (StatementModel {
            sql: RECEIVER_INSERT@,
            params: seq![SqlModel::Addresses(list)],
            failure: FILL_FAILURE@,
        });
    out.push(fill_senders);
    out.push(fill_receivers);
    out.push(without_params(SENDER_ANALYZE, "ANALYZE failed"));
    out.push(without_params(RECEIVER_ANALYZE, "ANALYZE failed"));
    out.push(
        Statement {
            sql: RANGE_DELETE.to_owned(),
            params: range_values(from, to),
            failure: "failed to clear the range",
        },
    );
    let mut query: String = REBUILD_START.to_owned();
    text::append_decimal(&mut query, BUCKET_SECONDS as u64);
    query.append(REBUILD_SENT);
    text::append_decimal(&mut query, BUCKET_SECONDS as u64);
    query.append(REBUILD_RECEIVED);
    let mut params = range_values(from, to);
    params.push(SqlValue::Text(cidr.to_owned()));
    assert(values(params@) =~= range_params(from, to).push(SqlModel::Text(cidr@)));
    out.push(
        Statement { sql: query, params, failure: "flow_stat_5m recompute insert failed" },
    );
    assert(statements(out@) =~= rebuild(from, to, cidr@, s, d));
    proof {
        a_rebuild_clears_and_fills_one_range(
            statements(out@),
            from,
            to,
            cidr@,
            senders@,
            receivers@,
        );
        assert(forall|i: int|
            0 <= i < out@.len() ==> statements(out@)[i] == (#[trigger] out@[i])@);
        assert(values(out@[2].params@)[0] == out@[2].params@[0]@);
        assert(values(out@[3].params@)[0] == out@[3].params@[0]@);
        assert(values(out@[7].params@)[2] == out@[7].params@[2]@);
    }
    out
}

/// The buckets of a range on the way to being rebuilt.
pub struct RangeRebuild<'a> {
    pub from: Timestamp,
    pub to: Timestamp,
    pub cidr: &'a str,
    /// The addresses that match as senders.
    pub senders: &'a HashSet<u32>,
    /// The addresses that match as receivers.
    pub receivers: &'a HashSet<u32>,
    /// Whether it has turned out that there are no raw rows.
    pub uncovered: bool,
}

/// What to do next.
pub enum RebuildStep {
    /// Ask for a number.
    Ask(Statement),
    /// Run the statements, and be done.
    Run(Vec<Statement>),
    /// Give up, with this to say.
    Refuse(String),
}

impl<'a> RangeRebuild<'a> {
    /// A range that has not been looked at yet.
    pub fn new(
        from: Timestamp,
        to: Timestamp,
        cidr: &'a str,
        senders: &'a HashSet<u32>,
        receivers: &'a HashSet<u32>,
    ) -> (r: Self)
        ensures
            r == (RangeRebuild { from, to, cidr, senders, receivers, uncovered: false }),
    {
        RangeRebuild { from, to, cidr, senders, receivers, uncovered: false }
    }

    /// The first thing to ask for: how many raw rows there are.
    pub fn first(&self) -> (r: Statement)
        ensures
            r@ == (StatementModel {
                sql: COVERAGE_QUERY@,
                params: range_params(self.from, self.to),
                failure: "failed to check raw coverage for the range"@,
            }),
            r.sql@ == "SELECT count(*)::bigint FROM flow_raw WHERE ts >= $1 AND ts < $2"@,
            r.params@.len() == 2,
            r.params@[0] == SqlValue::Instant(self.from),
            r.params@[1] == SqlValue::Instant(self.to),
    {
        count_raw_rows(self.from, self.to)
    }

    /// Takes in a number that was asked for.
    ///
    /// Nothing is cleared unless there are raw rows to fill it again from. Where there are none, it
    /// is asked how many rows would be lost, and then that is refused.
    pub fn answer(&mut self, count: i64) -> (r: RebuildStep)
        requires
            old(self).from.valid(),
            old(self).to.valid(),
        ensures
            final(self).from == old(self).from,
            final(self).to == old(self).to,
            final(self).cidr == old(self).cidr,
            final(self).senders == old(self).senders,
            final(self).receivers == old(self).receivers,
            final(self).uncovered == (old(self).uncovered || count == 0),
            match r {
                RebuildStep::Run(steps) => {
                    &&& !old(self).uncovered && count != 0
                    &&& rebuilds(
                        statements(steps@),
                        old(self).from,
                        old(self).to,
                        old(self).cidr@,
                        old(self).senders@,
                        old(self).receivers@,
                    )
                },
                RebuildStep::Ask(statement) => {
                    &&& !old(self).uncovered && count == 0
                    &&& statement@ == (StatementModel {
                        sql: EXISTING_QUERY@,
                        params: range_params(old(self).from, old(self).to),
                        failure: "failed to check existing statistics for the range"@,
                    })
                    &&& statement.params@.len() == 2
                    &&& statement.params@[0] == SqlValue::Instant(old(self).from)
                    &&& statement.params@[1] == SqlValue::Instant(old(self).to)
                },
                RebuildStep::Refuse(message) => {
                    &&& old(self).uncovered
                    &&& message@ == db::refusal_message(old(self).from, old(self).to, count)
                },
            },
    {
        if self.uncovered {
            return RebuildStep::Refuse(db::describe_refusal(self.from, self.to, count));
        }
        if db::can_rebuild(count) {
            RebuildStep::Run(
                recompute_5m(self.from, self.to, self.cidr, self.senders, self.receivers),
            )
        } else {
            self.uncovered = true;
            RebuildStep::Ask(count_bucket_rows(self.from, self.to))
        }
    }
}

// ── rebuilding a day ────────────────────────────────────────────────────────

/// Adds up a day.
pub const DAY_TOTAL: &'static str =
    "SELECT COALESCE(SUM(intra_rx_bytes+intra_tx_bytes+ext_rx_bytes+ext_tx_bytes),0)::bigint \
    FROM flow_stat_1d WHERE day = $1";

/// Clears a day.
pub const DAY_DELETE: &'static str = "DELETE FROM flow_stat_1d WHERE day = $1";

/// Fills a day from its buckets.
pub const DAY_ROLLUP: &'static str = "INSERT INTO flow_stat_1d \
    (day, addr, intra_rx_bytes, intra_tx_bytes, ext_rx_bytes, ext_tx_bytes) \
    SELECT $1::date, addr, \
    SUM(intra_rx_bytes), SUM(intra_tx_bytes), \
    SUM(ext_rx_bytes),   SUM(ext_tx_bytes) \
    FROM flow_stat_5m \
    WHERE bucket >= $2 AND bucket < $3 \
    GROUP BY addr";

/// The statements that rebuild a day, in this order.
pub struct DayRebuild {
    /// Tells the total as it is.
    pub before: Statement,
    pub clear: Statement,
    /// Tells how many rows it makes.
    pub fill: Statement,
    /// Tells the total as it has become.
    pub after: Statement,
}

fn with_day(sql: &str, day: Day, failure: &'static str) -> (r: Statement)
    ensures
        r@ == (StatementModel { sql: sql@, params: seq![SqlModel::Date(day)], failure: failure@ }),
        r.params@.len() == 1 && r.params@[0] == SqlValue::Date(day),
{
    let mut params: Vec<SqlValue> = Vec::new();
    params.push(SqlValue::Date(day));
    assert(values(params@) =~= seq![SqlModel::Date(day)]);
    Statement { sql: sql.to_owned(), params, failure }
}

/// The statements that rebuild a day in Taipei from its buckets.
pub fn recompute_day(day: Day) -> (r: DayRebuild)
    requires
        db::has_bounds(day),
    ensures
        r.before@ == (StatementModel {
            sql: DAY_TOTAL@,
            params: seq![SqlModel::Date(day)],
            failure: "failed to read the existing day total"@,
        }),
        r.clear@ == (StatementModel {
            sql: DAY_DELETE@,
            params: seq![SqlModel::Date(day)],
            failure: "failed to clear the day"@,
        }),
        r.fill@ == (StatementModel {
            sql: DAY_ROLLUP@,
            params: seq![
                SqlModel::Date(day),
                SqlModel::Instant(Timestamp { secs: db::day_start(day) as i64, nanos: 0 }),
                SqlModel::Instant(Timestamp { secs: (db::day_start(day) + 86_400) as i64, nanos: 0 }),
            ],
            failure: "flow_stat_1d rollup insert failed"@,
        }),
        r.after@ == (StatementModel {
            sql: DAY_TOTAL@,
            params: seq![SqlModel::Date(day)],
            failure: "failed to read the rebuilt day total"@,
        }),
        r.before.sql@ == "SELECT COALESCE(SUM(intra_rx_bytes+intra_tx_bytes+ext_rx_bytes+ext_tx_bytes),\
            0)::bigint FROM flow_stat_1d WHERE day = $1"@,
        r.after.sql@ == "SELECT COALESCE(SUM(intra_rx_bytes+intra_tx_bytes+ext_rx_bytes+ext_tx_bytes),\
            0)::bigint FROM flow_stat_1d WHERE day = $1"@,
        r.fill.sql@ == "INSERT INTO flow_stat_1d (day, addr, intra_rx_bytes, intra_tx_bytes, ext_rx_bytes, \
            ext_tx_bytes) SELECT $1::date, addr, SUM(intra_rx_bytes), SUM(intra_tx_bytes), \
            SUM(ext_rx_bytes),   SUM(ext_tx_bytes) FROM flow_stat_5m WHERE bucket >= $2 AND \
            bucket < $3 GROUP BY addr"@,
        r.before.failure@ == "failed to read the existing day total"@,
        r.clear.failure@ == "failed to clear the day"@,
        r.fill.failure@ == "flow_stat_1d rollup insert failed"@,
        r.after.failure@ == "failed to read the rebuilt day total"@,
        r.clear.sql@ == "DELETE FROM flow_stat_1d WHERE day = $1"@,
        r.clear.params@.len() == 1 && r.clear.params@[0] == SqlValue::Date(day),
        r.before.params@.len() == 1 && r.before.params@[0] == SqlValue::Date(day),
        r.after.params@.len() == 1 && r.after.params@[0] == SqlValue::Date(day),
        r.fill.params@.len() == 3 && r.fill.params@[0] == SqlValue::Date(day),
        r.fill.params@[1] matches SqlValue::Instant(from) && r.fill.params@[2] matches
            SqlValue::Instant(to) && from.nanos == 0 && to.nanos == 0 && from.secs + 28_800 == (
        day.number - 719_163) * 86_400 && to.secs == from.secs + 86_400,
{
    let (from, to) = db::taipei_day_bounds(day);
    let mut params: Vec<SqlValue> = Vec::new();
    params.push(SqlValue::Date(day));
    params.push(SqlValue::Instant(from));
    params.push(SqlValue::Instant(to));
    assert(values(params@) =~= seq![
        SqlModel::Date(day),
        SqlModel::Instant(from),
        SqlModel::Instant(to),
    ]);
    DayRebuild {
        before: with_day(DAY_TOTAL, day, "failed to read the existing day total"),
        clear: with_day(DAY_DELETE, day, "failed to clear the day"),
        fill: Statement {
            sql: DAY_ROLLUP.to_owned(),
            params,
            failure: "flow_stat_1d rollup insert failed",
        },
        after: with_day(DAY_TOTAL, day, "failed to read the rebuilt day total"),
    }
}

} // verus!
