//! How the statements are worded: which columns they name, in which order, and what becomes of each.

use vstd::prelude::*;

use crate::db::{FlowRow, IntraCidr};
use crate::sql;
use crate::tables;
use crate::text;

verus! {

// ── the columns ─────────────────────────────────────────────────────────────

/// The columns of a raw row.
pub open spec fn raw_columns() -> Seq<Seq<char>> {
    seq![
        "ts"@, "srcaddr"@, "dstaddr"@, "srcport"@, "dstport"@, "prot"@, "d_pkts"@, "d_octets"@,
        "tcp_flags"@, "input"@, "output"@, "tos"@, "sampling_interval"@,
    ]
}

/// The columns of a bucket row.
pub open spec fn bucket_columns() -> Seq<Seq<char>> {
    seq![
        "bucket"@, "addr"@, "intra_rx_bytes"@, "intra_tx_bytes"@, "ext_rx_bytes"@, "ext_tx_bytes"@,
    ]
}

/// The columns of a day row.
pub open spec fn day_columns() -> Seq<Seq<char>> {
    seq![
        "day"@, "addr"@, "intra_rx_bytes"@, "intra_tx_bytes"@, "ext_rx_bytes"@, "ext_tx_bytes"@,
    ]
}

/// The columns of a health row.
pub open spec fn health_columns() -> Seq<Seq<char>> {
    seq![
        "bucket"@, "packets_received"@, "flows_parsed"@, "parse_failures"@, "seq_gap"@,
        "flows_matched"@, "rows_written"@, "db_failures"@, "clock_skew_min_ms"@,
        "clock_skew_max_ms"@, "clock_skew_last_ms"@, "clock_skew_rejects"@,
    ]
}

proof fn lemma_taken(all: Seq<Seq<char>>, between: Seq<char>, n: int)
    requires
        2 <= n <= all.len(),
    ensures
        sql::joined(all.take(n), between) == sql::joined(all.take(n - 1), between) + between + all[n
            - 1],
{
    assert(all.take(n) =~= all.take(n - 1).push(all[n - 1]));
    sql::one_more_part(all.take(n - 1), between, all[n - 1]);
}

proof fn lemma_four_joined(all: Seq<Seq<char>>, between: Seq<char>)
    requires
        all.len() == 4,
    ensures
        sql::joined(all, between) == all[0] + between + all[1] + between + all[2] + between
            + all[3],
{
    lemma_taken(all, between, 2);
    lemma_taken(all, between, 3);
    lemma_taken(all, between, 4);
    assert(all.take(1) =~= seq![all[0]]);
    assert(all.take(4) =~= all);
}

proof fn lemma_six_joined(all: Seq<Seq<char>>, between: Seq<char>)
    requires
        all.len() == 6,
    ensures
        sql::joined(all, between) == all[0] + between + all[1] + between + all[2] + between
            + all[3] + between + all[4] + between + all[5],
{
    lemma_taken(all, between, 2);
    lemma_taken(all, between, 3);
    lemma_taken(all, between, 4);
    lemma_taken(all, between, 5);
    lemma_taken(all, between, 6);
    assert(all.take(1) =~= seq![all[0]]);
    assert(all.take(6) =~= all);
}

proof fn lemma_twelve_joined(all: Seq<Seq<char>>, between: Seq<char>)
    requires
        all.len() == 12,
    ensures
        sql::joined(all, between) == all[0] + between + all[1] + between + all[2] + between
            + all[3] + between + all[4] + between + all[5] + between + all[6] + between + all[7]
            + between + all[8] + between + all[9] + between + all[10] + between + all[11],
{
    lemma_taken(all, between, 2);
    lemma_taken(all, between, 3);
    lemma_taken(all, between, 4);
    lemma_taken(all, between, 5);
    lemma_taken(all, between, 6);
    lemma_taken(all, between, 7);
    lemma_taken(all, between, 8);
    lemma_taken(all, between, 9);
    lemma_taken(all, between, 10);
    lemma_taken(all, between, 11);
    lemma_taken(all, between, 12);
    assert(all.take(1) =~= seq![all[0]]);
    assert(all.take(12) =~= all);
}

proof fn lemma_thirteen_joined(all: Seq<Seq<char>>, between: Seq<char>)
    requires
        all.len() == 13,
    ensures
        sql::joined(all, between) == all[0] + between + all[1] + between + all[2] + between
            + all[3] + between + all[4] + between + all[5] + between + all[6] + between + all[7]
            + between + all[8] + between + all[9] + between + all[10] + between + all[11] + between
            + all[12],
{
    lemma_taken(all, between, 2);
    lemma_taken(all, between, 3);
    lemma_taken(all, between, 4);
    lemma_taken(all, between, 5);
    lemma_taken(all, between, 6);
    lemma_taken(all, between, 7);
    lemma_taken(all, between, 8);
    lemma_taken(all, between, 9);
    lemma_taken(all, between, 10);
    lemma_taken(all, between, 11);
    lemma_taken(all, between, 12);
    lemma_taken(all, between, 13);
    assert(all.take(1) =~= seq![all[0]]);
    assert(all.take(13) =~= all);
}

/// A statement that writes raw rows starts by naming their columns, in order.
pub proof fn raw_rows_name_their_columns()
    ensures
        sql::RAW_INSERT@ == "INSERT INTO flow_raw ("@ + sql::joined(raw_columns(), ","@)
            + ") VALUES "@,
{
    reveal_strlit(
        "INSERT INTO flow_raw (ts,srcaddr,dstaddr,srcport,dstport,prot,d_pkts,d_octets,\
        tcp_flags,input,output,tos,sampling_interval) VALUES ",
    );
    reveal_strlit("INSERT INTO flow_raw (");
    reveal_strlit(",");
    reveal_strlit("ts");
    reveal_strlit("srcaddr");
    reveal_strlit("dstaddr");
    reveal_strlit("srcport");
    reveal_strlit("dstport");
    reveal_strlit("prot");
    reveal_strlit("d_pkts");
    reveal_strlit("d_octets");
    reveal_strlit("tcp_flags");
    reveal_strlit("input");
    reveal_strlit("output");
    reveal_strlit("tos");
    reveal_strlit("sampling_interval");
    reveal_strlit(") VALUES ");
    lemma_thirteen_joined(raw_columns(), ","@);
    assert(sql::RAW_INSERT@ =~= "INSERT INTO flow_raw ("@ + sql::joined(raw_columns(), ","@) + ") VALUES "@);
}

/// A statement that adds to buckets starts by naming their columns, in order.
pub proof fn bucket_rows_name_their_columns()
    ensures
        sql::BUCKET_INSERT@ == "INSERT INTO flow_stat_5m ("@ + sql::joined(bucket_columns(), ","@)
            + ") VALUES "@,
{
    reveal_strlit(
        "INSERT INTO flow_stat_5m (bucket,addr,intra_rx_bytes,intra_tx_bytes,ext_rx_bytes,\
        ext_tx_bytes) VALUES ",
    );
    reveal_strlit("INSERT INTO flow_stat_5m (");
    reveal_strlit(",");
    reveal_strlit("bucket");
    reveal_strlit("addr");
    reveal_strlit("intra_rx_bytes");
    reveal_strlit("intra_tx_bytes");
    reveal_strlit("ext_rx_bytes");
    reveal_strlit("ext_tx_bytes");
    reveal_strlit(") VALUES ");
    lemma_six_joined(bucket_columns(), ","@);
    assert(sql::BUCKET_INSERT@ =~= "INSERT INTO flow_stat_5m ("@ + sql::joined(bucket_columns(), ","@) + ") VALUES "@);
}

/// A statement that adds to days starts by naming their columns, in order.
pub proof fn day_rows_name_their_columns()
    ensures
        sql::DAY_INSERT@ == "INSERT INTO flow_stat_1d ("@ + sql::joined(day_columns(), ","@)
            + ") VALUES "@,
{
    reveal_strlit(
        "INSERT INTO flow_stat_1d (day,addr,intra_rx_bytes,intra_tx_bytes,ext_rx_bytes,\
        ext_tx_bytes) VALUES ",
    );
    reveal_strlit("INSERT INTO flow_stat_1d (");
    reveal_strlit(",");
    reveal_strlit("day");
    reveal_strlit("addr");
    reveal_strlit("intra_rx_bytes");
    reveal_strlit("intra_tx_bytes");
    reveal_strlit("ext_rx_bytes");
    reveal_strlit("ext_tx_bytes");
    reveal_strlit(") VALUES ");
    lemma_six_joined(day_columns(), ","@);
    assert(sql::DAY_INSERT@ =~= "INSERT INTO flow_stat_1d ("@ + sql::joined(day_columns(), ","@) + ") VALUES "@);
}

// ── rows that are there already ─────────────────────────────────────────────

/// A column that grows by what is given for it, with some space after its name.
pub open spec fn grows(table: Seq<char>, column: Seq<char>, space: Seq<char>) -> Seq<char> {
    column + space + " = "@ + table + "."@ + column + space + " + EXCLUDED."@ + column
}

/// Where there is a row for a bucket and a host already, each of its counters grows by what is given for that
/// same counter.
pub proof fn buckets_grow_column_by_column()
    ensures
        sql::BUCKET_CONFLICT@ == " ON CONFLICT (bucket,addr) DO UPDATE SET "@
            + grows("flow_stat_5m"@, "intra_rx_bytes"@, ""@) + ","@
            + grows("flow_stat_5m"@, "intra_tx_bytes"@, ""@) + ","@
            + grows("flow_stat_5m"@, "ext_rx_bytes"@, "  "@) + ","@
            + grows("flow_stat_5m"@, "ext_tx_bytes"@, "  "@),
{
    assert(grows("flow_stat_5m"@, "intra_rx_bytes"@, ""@) =~= "intra_rx_bytes = flow_stat_5m.intra_rx_bytes + EXCLUDED.intra_rx_bytes"@) by {
        reveal_strlit("intra_rx_bytes = flow_stat_5m.intra_rx_bytes + EXCLUDED.intra_rx_bytes");
        reveal_strlit("intra_rx_bytes");
        reveal_strlit("");
        reveal_strlit(" = ");
        reveal_strlit("flow_stat_5m");
        reveal_strlit(".");
        reveal_strlit(" + EXCLUDED.");
    }
    assert(grows("flow_stat_5m"@, "intra_tx_bytes"@, ""@) =~= "intra_tx_bytes = flow_stat_5m.intra_tx_bytes + EXCLUDED.intra_tx_bytes"@) by {
        reveal_strlit("intra_tx_bytes = flow_stat_5m.intra_tx_bytes + EXCLUDED.intra_tx_bytes");
        reveal_strlit("intra_tx_bytes");
        reveal_strlit("");
        reveal_strlit(" = ");
        reveal_strlit("flow_stat_5m");
        reveal_strlit(".");
        reveal_strlit(" + EXCLUDED.");
    }
    assert(grows("flow_stat_5m"@, "ext_rx_bytes"@, "  "@) =~= "ext_rx_bytes   = flow_stat_5m.ext_rx_bytes   + EXCLUDED.ext_rx_bytes"@) by {
        reveal_strlit("ext_rx_bytes   = flow_stat_5m.ext_rx_bytes   + EXCLUDED.ext_rx_bytes");
        reveal_strlit("ext_rx_bytes");
        reveal_strlit("  ");
        reveal_strlit(" = ");
        reveal_strlit("flow_stat_5m");
        reveal_strlit(".");
        reveal_strlit(" + EXCLUDED.");
    }
    assert(grows("flow_stat_5m"@, "ext_tx_bytes"@, "  "@) =~= "ext_tx_bytes   = flow_stat_5m.ext_tx_bytes   + EXCLUDED.ext_tx_bytes"@) by {
        reveal_strlit("ext_tx_bytes   = flow_stat_5m.ext_tx_bytes   + EXCLUDED.ext_tx_bytes");
        reveal_strlit("ext_tx_bytes");
        reveal_strlit("  ");
        reveal_strlit(" = ");
        reveal_strlit("flow_stat_5m");
        reveal_strlit(".");
        reveal_strlit(" + EXCLUDED.");
    }
    reveal_strlit(
        " ON CONFLICT (bucket,addr) DO UPDATE SET intra_rx_bytes = \
        flow_stat_5m.intra_rx_bytes + EXCLUDED.intra_rx_bytes,intra_tx_bytes = \
        flow_stat_5m.intra_tx_bytes + EXCLUDED.intra_tx_bytes,ext_rx_bytes   = \
        flow_stat_5m.ext_rx_bytes   + EXCLUDED.ext_rx_bytes,ext_tx_bytes   = \
        flow_stat_5m.ext_tx_bytes   + EXCLUDED.ext_tx_bytes",
    );
    reveal_strlit(" ON CONFLICT (bucket,addr) DO UPDATE SET ");
    reveal_strlit(",");
    reveal_strlit("intra_rx_bytes = flow_stat_5m.intra_rx_bytes + EXCLUDED.intra_rx_bytes");
    reveal_strlit("intra_tx_bytes = flow_stat_5m.intra_tx_bytes + EXCLUDED.intra_tx_bytes");
    reveal_strlit("ext_rx_bytes   = flow_stat_5m.ext_rx_bytes   + EXCLUDED.ext_rx_bytes");
    reveal_strlit("ext_tx_bytes   = flow_stat_5m.ext_tx_bytes   + EXCLUDED.ext_tx_bytes");
    assert(sql::BUCKET_CONFLICT@ =~= " ON CONFLICT (bucket,addr) DO UPDATE SET "@
        + grows("flow_stat_5m"@, "intra_rx_bytes"@, ""@) + ","@
        + grows("flow_stat_5m"@, "intra_tx_bytes"@, ""@) + ","@
        + grows("flow_stat_5m"@, "ext_rx_bytes"@, "  "@) + ","@
        + grows("flow_stat_5m"@, "ext_tx_bytes"@, "  "@));
}

/// Where there is a row for a day and a host already, each of its counters grows by what is given for that
/// same counter.
pub proof fn days_grow_column_by_column()
    ensures
        sql::DAY_CONFLICT@ == " ON CONFLICT (day,addr) DO UPDATE SET "@
            + grows("flow_stat_1d"@, "intra_rx_bytes"@, ""@) + ","@
            + grows("flow_stat_1d"@, "intra_tx_bytes"@, ""@) + ","@
            + grows("flow_stat_1d"@, "ext_rx_bytes"@, "  "@) + ","@
            + grows("flow_stat_1d"@, "ext_tx_bytes"@, "  "@),
{
    assert(grows("flow_stat_1d"@, "intra_rx_bytes"@, ""@) =~= "intra_rx_bytes = flow_stat_1d.intra_rx_bytes + EXCLUDED.intra_rx_bytes"@) by {
        reveal_strlit("intra_rx_bytes = flow_stat_1d.intra_rx_bytes + EXCLUDED.intra_rx_bytes");
        reveal_strlit("intra_rx_bytes");
        reveal_strlit("");
        reveal_strlit(" = ");
        reveal_strlit("flow_stat_1d");
        reveal_strlit(".");
        reveal_strlit(" + EXCLUDED.");
    }
    assert(grows("flow_stat_1d"@, "intra_tx_bytes"@, ""@) =~= "intra_tx_bytes = flow_stat_1d.intra_tx_bytes + EXCLUDED.intra_tx_bytes"@) by {
        reveal_strlit("intra_tx_bytes = flow_stat_1d.intra_tx_bytes + EXCLUDED.intra_tx_bytes");
        reveal_strlit("intra_tx_bytes");
        reveal_strlit("");
        reveal_strlit(" = ");
        reveal_strlit("flow_stat_1d");
        reveal_strlit(".");
        reveal_strlit(" + EXCLUDED.");
    }
    assert(grows("flow_stat_1d"@, "ext_rx_bytes"@, "  "@) =~= "ext_rx_bytes   = flow_stat_1d.ext_rx_bytes   + EXCLUDED.ext_rx_bytes"@) by {
        reveal_strlit("ext_rx_bytes   = flow_stat_1d.ext_rx_bytes   + EXCLUDED.ext_rx_bytes");
        reveal_strlit("ext_rx_bytes");
        reveal_strlit("  ");
        reveal_strlit(" = ");
        reveal_strlit("flow_stat_1d");
        reveal_strlit(".");
        reveal_strlit(" + EXCLUDED.");
    }
    assert(grows("flow_stat_1d"@, "ext_tx_bytes"@, "  "@) =~= "ext_tx_bytes   = flow_stat_1d.ext_tx_bytes   + EXCLUDED.ext_tx_bytes"@) by {
        reveal_strlit("ext_tx_bytes   = flow_stat_1d.ext_tx_bytes   + EXCLUDED.ext_tx_bytes");
        reveal_strlit("ext_tx_bytes");
        reveal_strlit("  ");
        reveal_strlit(" = ");
        reveal_strlit("flow_stat_1d");
        reveal_strlit(".");
        reveal_strlit(" + EXCLUDED.");
    }
    reveal_strlit(
        " ON CONFLICT (day,addr) DO UPDATE SET intra_rx_bytes = flow_stat_1d.intra_rx_bytes \
        + EXCLUDED.intra_rx_bytes,intra_tx_bytes = flow_stat_1d.intra_tx_bytes + \
        EXCLUDED.intra_tx_bytes,ext_rx_bytes   = flow_stat_1d.ext_rx_bytes   + \
        EXCLUDED.ext_rx_bytes,ext_tx_bytes   = flow_stat_1d.ext_tx_bytes   + \
        EXCLUDED.ext_tx_bytes",
    );
    reveal_strlit(" ON CONFLICT (day,addr) DO UPDATE SET ");
    reveal_strlit(",");
    reveal_strlit("intra_rx_bytes = flow_stat_1d.intra_rx_bytes + EXCLUDED.intra_rx_bytes");
    reveal_strlit("intra_tx_bytes = flow_stat_1d.intra_tx_bytes + EXCLUDED.intra_tx_bytes");
    reveal_strlit("ext_rx_bytes   = flow_stat_1d.ext_rx_bytes   + EXCLUDED.ext_rx_bytes");
    reveal_strlit("ext_tx_bytes   = flow_stat_1d.ext_tx_bytes   + EXCLUDED.ext_tx_bytes");
    assert(sql::DAY_CONFLICT@ =~= " ON CONFLICT (day,addr) DO UPDATE SET "@
        + grows("flow_stat_1d"@, "intra_rx_bytes"@, ""@) + ","@
        + grows("flow_stat_1d"@, "intra_tx_bytes"@, ""@) + ","@
        + grows("flow_stat_1d"@, "ext_rx_bytes"@, "  "@) + ","@
        + grows("flow_stat_1d"@, "ext_tx_bytes"@, "  "@));
}

/// A column that keeps the lesser number, with some space after its name.
pub open spec fn keeps_the_least(column: Seq<char>, space: Seq<char>) -> Seq<char> {
    column + space + " = LEAST(collector_health_1m."@ + column + ", EXCLUDED."@ + column + ")"@
}

/// A column that keeps the greater number, with some space after its name.
pub open spec fn keeps_the_greatest(column: Seq<char>, space: Seq<char>) -> Seq<char> {
    column + space + " = GREATEST(collector_health_1m."@ + column + ", EXCLUDED."@ + column + ")"@
}

/// A column that takes the number that is given, where one is.
pub open spec fn keeps_the_latest(column: Seq<char>) -> Seq<char> {
    column + " = COALESCE(EXCLUDED."@ + column + ", collector_health_1m."@ + column + ")"@
}

proof fn lemma_health_part_one()
    ensures
        sql::HEALTH_UPSERT@.subrange(0, 290) == "INSERT INTO collector_health_1m (bucket,packets_received,flows_parsed,\
            parse_failures,seq_gap,flows_matched,rows_written,db_failures,clock_skew_min_ms,\
            clock_skew_max_ms,clock_skew_last_ms,clock_skew_rejects) VALUES ($1,$2,$3,$4,$5,\
            $6,$7,$8,$9,$10,$11,$12) ON CONFLICT (bucket) DO UPDATE SET "@,
{
    let s = sql::HEALTH_UPSERT@;
    reveal_strlit(
        "INSERT INTO collector_health_1m (bucket,packets_received,flows_parsed,\
        parse_failures,seq_gap,flows_matched,rows_written,db_failures,clock_skew_min_ms,\
        clock_skew_max_ms,clock_skew_last_ms,clock_skew_rejects) VALUES ($1,$2,$3,$4,$5,$6,\
        $7,$8,$9,$10,$11,$12) ON CONFLICT (bucket) DO UPDATE SET packets_received = \
        collector_health_1m.packets_received + EXCLUDED.packets_received,flows_parsed     = \
        collector_health_1m.flows_parsed     + EXCLUDED.flows_parsed,parse_failures   = \
        collector_health_1m.parse_failures   + EXCLUDED.parse_failures,seq_gap          = \
        collector_health_1m.seq_gap          + EXCLUDED.seq_gap,flows_matched    = \
        collector_health_1m.flows_matched    + EXCLUDED.flows_matched,rows_written     = \
        collector_health_1m.rows_written     + EXCLUDED.rows_written,db_failures      = \
        collector_health_1m.db_failures      + EXCLUDED.db_failures,clock_skew_min_ms  = \
        LEAST(collector_health_1m.clock_skew_min_ms, EXCLUDED.clock_skew_min_ms),\
        clock_skew_max_ms  = GREATEST(collector_health_1m.clock_skew_max_ms, \
        EXCLUDED.clock_skew_max_ms),clock_skew_last_ms = \
        COALESCE(EXCLUDED.clock_skew_last_ms, collector_health_1m.clock_skew_last_ms),\
        clock_skew_rejects = collector_health_1m.clock_skew_rejects + \
        EXCLUDED.clock_skew_rejects",
    );
    assert(s.subrange(0, 290) =~= "INSERT INTO collector_health_1m (bucket,packets_received,flows_parsed,\
        parse_failures,seq_gap,flows_matched,rows_written,db_failures,clock_skew_min_ms,\
        clock_skew_max_ms,clock_skew_last_ms,clock_skew_rejects) VALUES ($1,$2,$3,$4,$5,$6,\
        $7,$8,$9,$10,$11,$12) ON CONFLICT (bucket) DO UPDATE SET "@) by {
        reveal_strlit("INSERT INTO collector_health_1m (bucket,packets_received,flows_parsed,\
            parse_failures,seq_gap,flows_matched,rows_written,db_failures,clock_skew_min_ms,\
            clock_skew_max_ms,clock_skew_last_ms,clock_skew_rejects) VALUES ($1,$2,$3,$4,$5,\
            $6,$7,$8,$9,$10,$11,$12) ON CONFLICT (bucket) DO UPDATE SET ");
    }
}

proof fn lemma_health_part_two()
    ensures
        sql::HEALTH_UPSERT@.subrange(290, 373) == "packets_received = collector_health_1m.packets_received + \
            EXCLUDED.packets_received"@,
        sql::HEALTH_UPSERT@.subrange(373, 374) == ","@,
        sql::HEALTH_UPSERT@.subrange(374, 453) == "flows_parsed     = collector_health_1m.flows_parsed     + EXCLUDED.flows_parsed"@,
        sql::HEALTH_UPSERT@.subrange(453, 454) == ","@,
        sql::HEALTH_UPSERT@.subrange(454, 535) == "parse_failures   = collector_health_1m.parse_failures   + \
            EXCLUDED.parse_failures"@,
        sql::HEALTH_UPSERT@.subrange(535, 536) == ","@,
        sql::HEALTH_UPSERT@.subrange(536, 610) == "seq_gap          = collector_health_1m.seq_gap          + EXCLUDED.seq_gap"@,
{
    let s = sql::HEALTH_UPSERT@;
    reveal_strlit(
        "INSERT INTO collector_health_1m (bucket,packets_received,flows_parsed,\
        parse_failures,seq_gap,flows_matched,rows_written,db_failures,clock_skew_min_ms,\
        clock_skew_max_ms,clock_skew_last_ms,clock_skew_rejects) VALUES ($1,$2,$3,$4,$5,$6,\
        $7,$8,$9,$10,$11,$12) ON CONFLICT (bucket) DO UPDATE SET packets_received = \
        collector_health_1m.packets_received + EXCLUDED.packets_received,flows_parsed     = \
        collector_health_1m.flows_parsed     + EXCLUDED.flows_parsed,parse_failures   = \
        collector_health_1m.parse_failures   + EXCLUDED.parse_failures,seq_gap          = \
        collector_health_1m.seq_gap          + EXCLUDED.seq_gap,flows_matched    = \
        collector_health_1m.flows_matched    + EXCLUDED.flows_matched,rows_written     = \
        collector_health_1m.rows_written     + EXCLUDED.rows_written,db_failures      = \
        collector_health_1m.db_failures      + EXCLUDED.db_failures,clock_skew_min_ms  = \
        LEAST(collector_health_1m.clock_skew_min_ms, EXCLUDED.clock_skew_min_ms),\
        clock_skew_max_ms  = GREATEST(collector_health_1m.clock_skew_max_ms, \
        EXCLUDED.clock_skew_max_ms),clock_skew_last_ms = \
        COALESCE(EXCLUDED.clock_skew_last_ms, collector_health_1m.clock_skew_last_ms),\
        clock_skew_rejects = collector_health_1m.clock_skew_rejects + \
        EXCLUDED.clock_skew_rejects",
    );
    assert(s.subrange(290, 373) =~= "packets_received = collector_health_1m.packets_received + EXCLUDED.packets_received"@) by {
        reveal_strlit("packets_received = collector_health_1m.packets_received + \
            EXCLUDED.packets_received");
    }
    assert(s.subrange(373, 374) =~= ","@) by {
        reveal_strlit(",");
    }
    assert(s.subrange(374, 453) =~= "flows_parsed     = collector_health_1m.flows_parsed     + EXCLUDED.flows_parsed"@) by {
        reveal_strlit("flows_parsed     = collector_health_1m.flows_parsed     + EXCLUDED.flows_parsed");
    }
    assert(s.subrange(453, 454) =~= ","@) by {
        reveal_strlit(",");
    }
    assert(s.subrange(454, 535) =~= "parse_failures   = collector_health_1m.parse_failures   + EXCLUDED.parse_failures"@) by {
        reveal_strlit("parse_failures   = collector_health_1m.parse_failures   + \
            EXCLUDED.parse_failures");
    }
    assert(s.subrange(535, 536) =~= ","@) by {
        reveal_strlit(",");
    }
    assert(s.subrange(536, 610) =~= "seq_gap          = collector_health_1m.seq_gap          + EXCLUDED.seq_gap"@) by {
        reveal_strlit("seq_gap          = collector_health_1m.seq_gap          + EXCLUDED.seq_gap");
    }
}

proof fn lemma_health_part_three()
    ensures
        sql::HEALTH_UPSERT@.subrange(610, 611) == ","@,
        sql::HEALTH_UPSERT@.subrange(611, 691) == "flows_matched    = collector_health_1m.flows_matched    + EXCLUDED.flows_matched"@,
        sql::HEALTH_UPSERT@.subrange(691, 692) == ","@,
        sql::HEALTH_UPSERT@.subrange(692, 771) == "rows_written     = collector_health_1m.rows_written     + EXCLUDED.rows_written"@,
        sql::HEALTH_UPSERT@.subrange(771, 772) == ","@,
        sql::HEALTH_UPSERT@.subrange(772, 850) == "db_failures      = collector_health_1m.db_failures      + EXCLUDED.db_failures"@,
        sql::HEALTH_UPSERT@.subrange(850, 851) == ","@,
{
    let s = sql::HEALTH_UPSERT@;
    reveal_strlit(
        "INSERT INTO collector_health_1m (bucket,packets_received,flows_parsed,\
        parse_failures,seq_gap,flows_matched,rows_written,db_failures,clock_skew_min_ms,\
        clock_skew_max_ms,clock_skew_last_ms,clock_skew_rejects) VALUES ($1,$2,$3,$4,$5,$6,\
        $7,$8,$9,$10,$11,$12) ON CONFLICT (bucket) DO UPDATE SET packets_received = \
        collector_health_1m.packets_received + EXCLUDED.packets_received,flows_parsed     = \
        collector_health_1m.flows_parsed     + EXCLUDED.flows_parsed,parse_failures   = \
        collector_health_1m.parse_failures   + EXCLUDED.parse_failures,seq_gap          = \
        collector_health_1m.seq_gap          + EXCLUDED.seq_gap,flows_matched    = \
        collector_health_1m.flows_matched    + EXCLUDED.flows_matched,rows_written     = \
        collector_health_1m.rows_written     + EXCLUDED.rows_written,db_failures      = \
        collector_health_1m.db_failures      + EXCLUDED.db_failures,clock_skew_min_ms  = \
        LEAST(collector_health_1m.clock_skew_min_ms, EXCLUDED.clock_skew_min_ms),\
        clock_skew_max_ms  = GREATEST(collector_health_1m.clock_skew_max_ms, \
        EXCLUDED.clock_skew_max_ms),clock_skew_last_ms = \
        COALESCE(EXCLUDED.clock_skew_last_ms, collector_health_1m.clock_skew_last_ms),\
        clock_skew_rejects = collector_health_1m.clock_skew_rejects + \
        EXCLUDED.clock_skew_rejects",
    );
    assert(s.subrange(610, 611) =~= ","@) by {
        reveal_strlit(",");
    }
    assert(s.subrange(611, 691) =~= "flows_matched    = collector_health_1m.flows_matched    + EXCLUDED.flows_matched"@) by {
        reveal_strlit("flows_matched    = collector_health_1m.flows_matched    + EXCLUDED.flows_matched");
    }
    assert(s.subrange(691, 692) =~= ","@) by {
        reveal_strlit(",");
    }
    assert(s.subrange(692, 771) =~= "rows_written     = collector_health_1m.rows_written     + EXCLUDED.rows_written"@) by {
        reveal_strlit("rows_written     = collector_health_1m.rows_written     + EXCLUDED.rows_written");
    }
    assert(s.subrange(771, 772) =~= ","@) by {
        reveal_strlit(",");
    }
    assert(s.subrange(772, 850) =~= "db_failures      = collector_health_1m.db_failures      + EXCLUDED.db_failures"@) by {
        reveal_strlit("db_failures      = collector_health_1m.db_failures      + EXCLUDED.db_failures");
    }
    assert(s.subrange(850, 851) =~= ","@) by {
        reveal_strlit(",");
    }
}

proof fn lemma_health_part_four()
    ensures
        sql::HEALTH_UPSERT@.subrange(851, 944) == "clock_skew_min_ms  = LEAST(collector_health_1m.clock_skew_min_ms, \
            EXCLUDED.clock_skew_min_ms)"@,
        sql::HEALTH_UPSERT@.subrange(944, 945) == ","@,
        sql::HEALTH_UPSERT@.subrange(945, 1041) == "clock_skew_max_ms  = GREATEST(collector_health_1m.clock_skew_max_ms, \
            EXCLUDED.clock_skew_max_ms)"@,
        sql::HEALTH_UPSERT@.subrange(1041, 1042) == ","@,
        sql::HEALTH_UPSERT@.subrange(1042, 1140) == "clock_skew_last_ms = COALESCE(EXCLUDED.clock_skew_last_ms, \
            collector_health_1m.clock_skew_last_ms)"@,
        sql::HEALTH_UPSERT@.subrange(1140, 1141) == ","@,
        sql::HEALTH_UPSERT@.subrange(1141, 1230) == "clock_skew_rejects = collector_health_1m.clock_skew_rejects + \
            EXCLUDED.clock_skew_rejects"@,
        sql::HEALTH_UPSERT@.len() == 1230,
{
    let s = sql::HEALTH_UPSERT@;
    reveal_strlit(
        "INSERT INTO collector_health_1m (bucket,packets_received,flows_parsed,\
        parse_failures,seq_gap,flows_matched,rows_written,db_failures,clock_skew_min_ms,\
        clock_skew_max_ms,clock_skew_last_ms,clock_skew_rejects) VALUES ($1,$2,$3,$4,$5,$6,\
        $7,$8,$9,$10,$11,$12) ON CONFLICT (bucket) DO UPDATE SET packets_received = \
        collector_health_1m.packets_received + EXCLUDED.packets_received,flows_parsed     = \
        collector_health_1m.flows_parsed     + EXCLUDED.flows_parsed,parse_failures   = \
        collector_health_1m.parse_failures   + EXCLUDED.parse_failures,seq_gap          = \
        collector_health_1m.seq_gap          + EXCLUDED.seq_gap,flows_matched    = \
        collector_health_1m.flows_matched    + EXCLUDED.flows_matched,rows_written     = \
        collector_health_1m.rows_written     + EXCLUDED.rows_written,db_failures      = \
        collector_health_1m.db_failures      + EXCLUDED.db_failures,clock_skew_min_ms  = \
        LEAST(collector_health_1m.clock_skew_min_ms, EXCLUDED.clock_skew_min_ms),\
        clock_skew_max_ms  = GREATEST(collector_health_1m.clock_skew_max_ms, \
        EXCLUDED.clock_skew_max_ms),clock_skew_last_ms = \
        COALESCE(EXCLUDED.clock_skew_last_ms, collector_health_1m.clock_skew_last_ms),\
        clock_skew_rejects = collector_health_1m.clock_skew_rejects + \
        EXCLUDED.clock_skew_rejects",
    );
    assert(s.subrange(851, 944) =~= "clock_skew_min_ms  = LEAST(collector_health_1m.clock_skew_min_ms, \
        EXCLUDED.clock_skew_min_ms)"@) by {
        reveal_strlit("clock_skew_min_ms  = LEAST(collector_health_1m.clock_skew_min_ms, \
            EXCLUDED.clock_skew_min_ms)");
    }
    assert(s.subrange(944, 945) =~= ","@) by {
        reveal_strlit(",");
    }
    assert(s.subrange(945, 1041) =~= "clock_skew_max_ms  = GREATEST(collector_health_1m.clock_skew_max_ms, \
        EXCLUDED.clock_skew_max_ms)"@) by {
        reveal_strlit("clock_skew_max_ms  = GREATEST(collector_health_1m.clock_skew_max_ms, \
            EXCLUDED.clock_skew_max_ms)");
    }
    assert(s.subrange(1041, 1042) =~= ","@) by {
        reveal_strlit(",");
    }
    assert(s.subrange(1042, 1140) =~= "clock_skew_last_ms = COALESCE(EXCLUDED.clock_skew_last_ms, \
        collector_health_1m.clock_skew_last_ms)"@) by {
        reveal_strlit("clock_skew_last_ms = COALESCE(EXCLUDED.clock_skew_last_ms, \
            collector_health_1m.clock_skew_last_ms)");
    }
    assert(s.subrange(1140, 1141) =~= ","@) by {
        reveal_strlit(",");
    }
    assert(s.subrange(1141, 1230) =~= "clock_skew_rejects = collector_health_1m.clock_skew_rejects + \
        EXCLUDED.clock_skew_rejects"@) by {
        reveal_strlit("clock_skew_rejects = collector_health_1m.clock_skew_rejects + \
            EXCLUDED.clock_skew_rejects");
    }
}

proof fn lemma_health_columns_merge()
    ensures
        grows("collector_health_1m"@, "packets_received"@, ""@) == "packets_received = collector_health_1m.packets_received + \
            EXCLUDED.packets_received"@,
        grows("collector_health_1m"@, "flows_parsed"@, "    "@) == "flows_parsed     = collector_health_1m.flows_parsed     + EXCLUDED.flows_parsed"@,
        grows("collector_health_1m"@, "parse_failures"@, "  "@) == "parse_failures   = collector_health_1m.parse_failures   + \
            EXCLUDED.parse_failures"@,
        grows("collector_health_1m"@, "seq_gap"@, "         "@) == "seq_gap          = collector_health_1m.seq_gap          + EXCLUDED.seq_gap"@,
        grows("collector_health_1m"@, "flows_matched"@, "   "@) == "flows_matched    = collector_health_1m.flows_matched    + EXCLUDED.flows_matched"@,
        grows("collector_health_1m"@, "rows_written"@, "    "@) == "rows_written     = collector_health_1m.rows_written     + EXCLUDED.rows_written"@,
        grows("collector_health_1m"@, "db_failures"@, "     "@) == "db_failures      = collector_health_1m.db_failures      + EXCLUDED.db_failures"@,
        keeps_the_least("clock_skew_min_ms"@, " "@) == "clock_skew_min_ms  = LEAST(collector_health_1m.clock_skew_min_ms, \
            EXCLUDED.clock_skew_min_ms)"@,
        keeps_the_greatest("clock_skew_max_ms"@, " "@) == "clock_skew_max_ms  = GREATEST(collector_health_1m.clock_skew_max_ms, \
            EXCLUDED.clock_skew_max_ms)"@,
        keeps_the_latest("clock_skew_last_ms"@) == "clock_skew_last_ms = COALESCE(EXCLUDED.clock_skew_last_ms, \
            collector_health_1m.clock_skew_last_ms)"@,
        grows("collector_health_1m"@, "clock_skew_rejects"@, ""@) == "clock_skew_rejects = collector_health_1m.clock_skew_rejects + \
            EXCLUDED.clock_skew_rejects"@,
{
    assert(grows("collector_health_1m"@, "packets_received"@, ""@) =~= "packets_received = collector_health_1m.packets_received + EXCLUDED.packets_received"@) by {
        reveal_strlit("packets_received = collector_health_1m.packets_received + \
            EXCLUDED.packets_received");
        reveal_strlit("packets_received");
        reveal_strlit("");
        reveal_strlit(" = ");
        reveal_strlit("collector_health_1m");
        reveal_strlit(".");
        reveal_strlit(" + EXCLUDED.");
    }
    assert(grows("collector_health_1m"@, "flows_parsed"@, "    "@) =~= "flows_parsed     = collector_health_1m.flows_parsed     + EXCLUDED.flows_parsed"@) by {
        reveal_strlit("flows_parsed     = collector_health_1m.flows_parsed     + EXCLUDED.flows_parsed");
        reveal_strlit("flows_parsed");
        reveal_strlit("    ");
        reveal_strlit(" = ");
        reveal_strlit("collector_health_1m");
        reveal_strlit(".");
        reveal_strlit(" + EXCLUDED.");
    }
    assert(grows("collector_health_1m"@, "parse_failures"@, "  "@) =~= "parse_failures   = collector_health_1m.parse_failures   + EXCLUDED.parse_failures"@) by {
        reveal_strlit("parse_failures   = collector_health_1m.parse_failures   + \
            EXCLUDED.parse_failures");
        reveal_strlit("parse_failures");
        reveal_strlit("  ");
        reveal_strlit(" = ");
        reveal_strlit("collector_health_1m");
        reveal_strlit(".");
        reveal_strlit(" + EXCLUDED.");
    }
    assert(grows("collector_health_1m"@, "seq_gap"@, "         "@) =~= "seq_gap          = collector_health_1m.seq_gap          + EXCLUDED.seq_gap"@) by {
        reveal_strlit("seq_gap          = collector_health_1m.seq_gap          + EXCLUDED.seq_gap");
        reveal_strlit("seq_gap");
        reveal_strlit("         ");
        reveal_strlit(" = ");
        reveal_strlit("collector_health_1m");
        reveal_strlit(".");
        reveal_strlit(" + EXCLUDED.");
    }
    assert(grows("collector_health_1m"@, "flows_matched"@, "   "@) =~= "flows_matched    = collector_health_1m.flows_matched    + EXCLUDED.flows_matched"@) by {
        reveal_strlit("flows_matched    = collector_health_1m.flows_matched    + EXCLUDED.flows_matched");
        reveal_strlit("flows_matched");
        reveal_strlit("   ");
        reveal_strlit(" = ");
        reveal_strlit("collector_health_1m");
        reveal_strlit(".");
        reveal_strlit(" + EXCLUDED.");
    }
    assert(grows("collector_health_1m"@, "rows_written"@, "    "@) =~= "rows_written     = collector_health_1m.rows_written     + EXCLUDED.rows_written"@) by {
        reveal_strlit("rows_written     = collector_health_1m.rows_written     + EXCLUDED.rows_written");
        reveal_strlit("rows_written");
        reveal_strlit("    ");
        reveal_strlit(" = ");
        reveal_strlit("collector_health_1m");
        reveal_strlit(".");
        reveal_strlit(" + EXCLUDED.");
    }
    assert(grows("collector_health_1m"@, "db_failures"@, "     "@) =~= "db_failures      = collector_health_1m.db_failures      + EXCLUDED.db_failures"@) by {
        reveal_strlit("db_failures      = collector_health_1m.db_failures      + EXCLUDED.db_failures");
        reveal_strlit("db_failures");
        reveal_strlit("     ");
        reveal_strlit(" = ");
        reveal_strlit("collector_health_1m");
        reveal_strlit(".");
        reveal_strlit(" + EXCLUDED.");
    }
    assert(keeps_the_least("clock_skew_min_ms"@, " "@) =~= "clock_skew_min_ms  = LEAST(collector_health_1m.clock_skew_min_ms, \
        EXCLUDED.clock_skew_min_ms)"@) by {
        reveal_strlit("clock_skew_min_ms  = LEAST(collector_health_1m.clock_skew_min_ms, \
            EXCLUDED.clock_skew_min_ms)");
        reveal_strlit("clock_skew_min_ms");
        reveal_strlit(" ");
        reveal_strlit(" = LEAST(collector_health_1m.");
        reveal_strlit(", EXCLUDED.");
        reveal_strlit(")");
    }
    assert(keeps_the_greatest("clock_skew_max_ms"@, " "@) =~= "clock_skew_max_ms  = GREATEST(collector_health_1m.clock_skew_max_ms, \
        EXCLUDED.clock_skew_max_ms)"@) by {
        reveal_strlit("clock_skew_max_ms  = GREATEST(collector_health_1m.clock_skew_max_ms, \
            EXCLUDED.clock_skew_max_ms)");
        reveal_strlit("clock_skew_max_ms");
        reveal_strlit(" ");
        reveal_strlit(" = GREATEST(collector_health_1m.");
        reveal_strlit(", EXCLUDED.");
        reveal_strlit(")");
    }
    assert(keeps_the_latest("clock_skew_last_ms"@) =~= "clock_skew_last_ms = COALESCE(EXCLUDED.clock_skew_last_ms, \
        collector_health_1m.clock_skew_last_ms)"@) by {
        reveal_strlit("clock_skew_last_ms = COALESCE(EXCLUDED.clock_skew_last_ms, \
            collector_health_1m.clock_skew_last_ms)");
        reveal_strlit("clock_skew_last_ms");
        reveal_strlit(" = COALESCE(EXCLUDED.");
        reveal_strlit(", collector_health_1m.");
        reveal_strlit(")");
    }
    assert(grows("collector_health_1m"@, "clock_skew_rejects"@, ""@) =~= "clock_skew_rejects = collector_health_1m.clock_skew_rejects + \
        EXCLUDED.clock_skew_rejects"@) by {
        reveal_strlit("clock_skew_rejects = collector_health_1m.clock_skew_rejects + \
            EXCLUDED.clock_skew_rejects");
        reveal_strlit("clock_skew_rejects");
        reveal_strlit("");
        reveal_strlit(" = ");
        reveal_strlit("collector_health_1m");
        reveal_strlit(".");
        reveal_strlit(" + EXCLUDED.");
    }
}

/// Where there is a row for a window already, each count grows by what is given for that same count, the
/// least skew becomes the lesser of the two and the greatest the greater, and the last one is the one that
/// is given, if any is.
pub proof fn health_rows_merge_column_by_column()
    ensures
        sql::HEALTH_UPSERT@ == "INSERT INTO collector_health_1m (bucket,packets_received,flows_parsed,\
            parse_failures,seq_gap,flows_matched,rows_written,db_failures,clock_skew_min_ms,\
            clock_skew_max_ms,clock_skew_last_ms,clock_skew_rejects) VALUES ($1,$2,$3,$4,$5,\
            $6,$7,$8,$9,$10,$11,$12) ON CONFLICT (bucket) DO UPDATE SET "@
            + grows("collector_health_1m"@, "packets_received"@, ""@) + ","@
            + grows("collector_health_1m"@, "flows_parsed"@, "    "@) + ","@
            + grows("collector_health_1m"@, "parse_failures"@, "  "@) + ","@
            + grows("collector_health_1m"@, "seq_gap"@, "         "@) + ","@
            + grows("collector_health_1m"@, "flows_matched"@, "   "@) + ","@
            + grows("collector_health_1m"@, "rows_written"@, "    "@) + ","@
            + grows("collector_health_1m"@, "db_failures"@, "     "@) + ","@
            + keeps_the_least("clock_skew_min_ms"@, " "@) + ","@
            + keeps_the_greatest("clock_skew_max_ms"@, " "@) + ","@
            + keeps_the_latest("clock_skew_last_ms"@) + ","@
            + grows("collector_health_1m"@, "clock_skew_rejects"@, ""@),
{
    lemma_health_part_one();
    lemma_health_part_two();
    lemma_health_part_three();
    lemma_health_part_four();
    lemma_health_columns_merge();
    let s = sql::HEALTH_UPSERT@;
    assert(s.subrange(0, 373) =~= s.subrange(0, 290) + s.subrange(290, 373));
    assert(s.subrange(0, 374) =~= s.subrange(0, 373) + s.subrange(373, 374));
    assert(s.subrange(0, 453) =~= s.subrange(0, 374) + s.subrange(374, 453));
    assert(s.subrange(0, 454) =~= s.subrange(0, 453) + s.subrange(453, 454));
    assert(s.subrange(0, 535) =~= s.subrange(0, 454) + s.subrange(454, 535));
    assert(s.subrange(0, 536) =~= s.subrange(0, 535) + s.subrange(535, 536));
    assert(s.subrange(0, 610) =~= s.subrange(0, 536) + s.subrange(536, 610));
    assert(s.subrange(0, 611) =~= s.subrange(0, 610) + s.subrange(610, 611));
    assert(s.subrange(0, 691) =~= s.subrange(0, 611) + s.subrange(611, 691));
    assert(s.subrange(0, 692) =~= s.subrange(0, 691) + s.subrange(691, 692));
    assert(s.subrange(0, 771) =~= s.subrange(0, 692) + s.subrange(692, 771));
    assert(s.subrange(0, 772) =~= s.subrange(0, 771) + s.subrange(771, 772));
    assert(s.subrange(0, 850) =~= s.subrange(0, 772) + s.subrange(772, 850));
    assert(s.subrange(0, 851) =~= s.subrange(0, 850) + s.subrange(850, 851));
    assert(s.subrange(0, 944) =~= s.subrange(0, 851) + s.subrange(851, 944));
    assert(s.subrange(0, 945) =~= s.subrange(0, 944) + s.subrange(944, 945));
    assert(s.subrange(0, 1041) =~= s.subrange(0, 945) + s.subrange(945, 1041));
    assert(s.subrange(0, 1042) =~= s.subrange(0, 1041) + s.subrange(1041, 1042));
    assert(s.subrange(0, 1140) =~= s.subrange(0, 1042) + s.subrange(1042, 1140));
    assert(s.subrange(0, 1141) =~= s.subrange(0, 1140) + s.subrange(1140, 1141));
    assert(s.subrange(0, 1230) =~= s.subrange(0, 1141) + s.subrange(1141, 1230));
    assert(s.subrange(0, 1230) =~= s);
}

/// A statement that writes a window starts by naming its columns, in order, with a placeholder for each.
pub proof fn health_rows_name_their_columns()
    ensures
        sql::HEALTH_UPSERT@.len() > 290,
        sql::HEALTH_UPSERT@.take(290) == "INSERT INTO collector_health_1m ("@ + sql::joined(health_columns(), ","@)
            + ") VALUES "@ + sql::placeholders(0, 12) + " ON CONFLICT (bucket) DO UPDATE SET "@,
{
    lemma_health_part_one();
    lemma_health_part_four();
    lemma_twelve_joined(health_columns(), ","@);
    assert(sql::HEALTH_UPSERT@.take(290) =~= sql::HEALTH_UPSERT@.subrange(0, 290));
    assert(sql::placeholders(0, 12) =~= "($1,$2,$3,$4,$5,$6,$7,$8,$9,$10,$11,$12)"@) by {
        reveal_strlit("($1,$2,$3,$4,$5,$6,$7,$8,$9,$10,$11,$12)");
        reveal_strlit("(");
        reveal_strlit(")");
        reveal_strlit("$");
        reveal_strlit(",");
        reveal_with_fuel(sql::placeholder_list, 13);
        reveal_with_fuel(text::decimal, 2);
    }
    reveal_strlit(
        "INSERT INTO collector_health_1m (bucket,packets_received,flows_parsed,\
        parse_failures,seq_gap,flows_matched,rows_written,db_failures,clock_skew_min_ms,\
        clock_skew_max_ms,clock_skew_last_ms,clock_skew_rejects) VALUES ($1,$2,$3,$4,$5,$6,\
        $7,$8,$9,$10,$11,$12) ON CONFLICT (bucket) DO UPDATE SET ",
    );
    reveal_strlit("INSERT INTO collector_health_1m (");
    reveal_strlit(",");
    reveal_strlit("bucket");
    reveal_strlit("packets_received");
    reveal_strlit("flows_parsed");
    reveal_strlit("parse_failures");
    reveal_strlit("seq_gap");
    reveal_strlit("flows_matched");
    reveal_strlit("rows_written");
    reveal_strlit("db_failures");
    reveal_strlit("clock_skew_min_ms");
    reveal_strlit("clock_skew_max_ms");
    reveal_strlit("clock_skew_last_ms");
    reveal_strlit("clock_skew_rejects");
    reveal_strlit(") VALUES ");
    reveal_strlit("($1,$2,$3,$4,$5,$6,$7,$8,$9,$10,$11,$12)");
    reveal_strlit(" ON CONFLICT (bucket) DO UPDATE SET ");
    assert("INSERT INTO collector_health_1m (bucket,packets_received,flows_parsed,\
        parse_failures,seq_gap,flows_matched,rows_written,db_failures,clock_skew_min_ms,\
        clock_skew_max_ms,clock_skew_last_ms,clock_skew_rejects) VALUES ($1,$2,$3,$4,$5,$6,\
        $7,$8,$9,$10,$11,$12) ON CONFLICT (bucket) DO UPDATE SET "@ =~= "INSERT INTO collector_health_1m ("@ + sql::joined(health_columns(), ","@) + ") VALUES "@ + "($1,$2,$3,$4,$5,$6,$7,$8,$9,$10,$11,$12)"@ + " ON CONFLICT (bucket) DO UPDATE SET "@);
}

// ── rebuilding a day ────────────────────────────────────────────────────────

/// The sum over a column.
pub open spec fn summed(column: Seq<char>) -> Seq<char> {
    "SUM("@ + column + ")"@
}

/// A day is filled with the sums over each counter of its bucket rows, under the same counter.
pub proof fn a_day_sums_each_column()
    ensures
        sql::DAY_ROLLUP@ == "INSERT INTO flow_stat_1d ("@ + sql::joined(day_columns(), ", "@)
            + ") SELECT $1::date, addr, "@ + summed("intra_rx_bytes"@) + ", "@ + summed("intra_tx_bytes"@)
            + ", "@ + summed("ext_rx_bytes"@) + ",   "@ + summed("ext_tx_bytes"@)
            + " FROM flow_stat_5m WHERE bucket >= $2 AND bucket < $3 GROUP BY addr"@,
{
    reveal_strlit(
        "INSERT INTO flow_stat_1d (day, addr, intra_rx_bytes, intra_tx_bytes, ext_rx_bytes, \
        ext_tx_bytes) SELECT $1::date, addr, SUM(intra_rx_bytes), SUM(intra_tx_bytes), \
        SUM(ext_rx_bytes),   SUM(ext_tx_bytes) FROM flow_stat_5m WHERE bucket >= $2 AND \
        bucket < $3 GROUP BY addr",
    );
    reveal_strlit("INSERT INTO flow_stat_1d (");
    reveal_strlit(", ");
    reveal_strlit("day");
    reveal_strlit("addr");
    reveal_strlit("intra_rx_bytes");
    reveal_strlit("intra_tx_bytes");
    reveal_strlit("ext_rx_bytes");
    reveal_strlit("ext_tx_bytes");
    reveal_strlit(") SELECT $1::date, addr, ");
    reveal_strlit("SUM(");
    reveal_strlit(")");
    reveal_strlit(",   ");
    reveal_strlit(" FROM flow_stat_5m WHERE bucket >= $2 AND bucket < $3 GROUP BY addr");
    lemma_six_joined(day_columns(), ", "@);
    assert(sql::DAY_ROLLUP@ =~= "INSERT INTO flow_stat_1d ("@ + sql::joined(day_columns(), ", "@)
        + ") SELECT $1::date, addr, "@ + summed("intra_rx_bytes"@) + ", "@ + summed("intra_tx_bytes"@)
        + ", "@ + summed("ext_rx_bytes"@) + ",   "@ + summed("ext_tx_bytes"@)
        + " FROM flow_stat_5m WHERE bucket >= $2 AND bucket < $3 GROUP BY addr"@);
}

/// The total of a day is the sum over its rows of all four counters.
pub proof fn a_day_total_counts_each_column_once()
    ensures
        sql::DAY_TOTAL@ == "SELECT COALESCE("@ + summed(
            sql::joined(day_columns().skip(2), "+"@),
        ) + ",0)::bigint FROM flow_stat_1d WHERE day = $1"@,
{
    reveal_strlit(
        "SELECT COALESCE(SUM(intra_rx_bytes+intra_tx_bytes+ext_rx_bytes+ext_tx_bytes),\
        0)::bigint FROM flow_stat_1d WHERE day = $1",
    );
    reveal_strlit("SELECT COALESCE(");
    reveal_strlit("SUM(");
    reveal_strlit(")");
    reveal_strlit("+");
    reveal_strlit("intra_rx_bytes");
    reveal_strlit("intra_tx_bytes");
    reveal_strlit("ext_rx_bytes");
    reveal_strlit("ext_tx_bytes");
    reveal_strlit(",0)::bigint FROM flow_stat_1d WHERE day = $1");
    lemma_four_joined(day_columns().skip(2), "+"@);
    assert(sql::DAY_TOTAL@ =~= "SELECT COALESCE("@ + summed(
        sql::joined(day_columns().skip(2), "+"@),
    ) + ",0)::bigint FROM flow_stat_1d WHERE day = $1"@);
}

// ── rebuilding buckets ──────────────────────────────────────────────────────

/// What a raw row brings for one counter.
pub enum Term {
    Nothing,
    /// Its bytes, where the other end is inside the intranet.
    Inside,
    /// Its bytes, where the other end is outside the intranet.
    Outside,
}

/// How that is worded, where a column of the raw rows has the other end.
pub open spec fn term_text(term: Term, other: Seq<char>) -> Seq<char> {
    match term {
        Term::Nothing => "0::bigint"@,
        Term::Inside => "CASE WHEN r."@ + other
            + " <<= $3::text::inet THEN r.d_octets * r.sampling_interval ELSE 0 END"@,
        Term::Outside => "CASE WHEN r."@ + other
            + " <<= $3::text::inet THEN 0 ELSE r.d_octets * r.sampling_interval END"@,
    }
}

/// What that comes to for a raw row.
pub open spec fn term_value(term: Term, row: FlowRow, inside: bool) -> int {
    match term {
        Term::Nothing => 0,
        Term::Inside => if inside {
            row.bytes * row.sampling_interval
        } else {
            0
        },
        Term::Outside => if inside {
            0
        } else {
            row.bytes * row.sampling_interval
        },
    }
}

/// The buckets of a range are filled from two selections, with the sums of the four counters in the order
/// in which the columns are named.
pub proof fn what_is_summed_is_named_in_order()
    ensures
        sql::REBUILD_START@ == "INSERT INTO flow_stat_5m ("@ + sql::joined(bucket_columns(), ", "@)
            + ") SELECT bucket, addr, "@ + summed("irxb"@) + ", "@ + summed("itxb"@) + ", "@
            + summed("erxb"@) + ", "@ + summed("etxb"@)
            + " FROM ( SELECT time_bucket(make_interval(secs => "@,
{
    reveal_strlit(
        "INSERT INTO flow_stat_5m (bucket, addr, intra_rx_bytes, intra_tx_bytes, \
        ext_rx_bytes, ext_tx_bytes) SELECT bucket, addr, SUM(irxb), SUM(itxb), SUM(erxb), \
        SUM(etxb) FROM ( SELECT time_bucket(make_interval(secs => ",
    );
    reveal_strlit("INSERT INTO flow_stat_5m (");
    reveal_strlit(", ");
    reveal_strlit("bucket");
    reveal_strlit("addr");
    reveal_strlit("intra_rx_bytes");
    reveal_strlit("intra_tx_bytes");
    reveal_strlit("ext_rx_bytes");
    reveal_strlit("ext_tx_bytes");
    reveal_strlit(") SELECT bucket, addr, ");
    reveal_strlit("SUM(");
    reveal_strlit("irxb");
    reveal_strlit("itxb");
    reveal_strlit("erxb");
    reveal_strlit("etxb");
    reveal_strlit(")");
    reveal_strlit(" FROM ( SELECT time_bucket(make_interval(secs => ");
    lemma_six_joined(bucket_columns(), ", "@);
    assert(sql::REBUILD_START@ =~= "INSERT INTO flow_stat_5m ("@ + sql::joined(bucket_columns(), ", "@)
        + ") SELECT bucket, addr, "@ + summed("irxb"@) + ", "@ + summed("itxb"@) + ", "@
        + summed("erxb"@) + ", "@ + summed("etxb"@)
        + " FROM ( SELECT time_bucket(make_interval(secs => "@);
}

/// The first selection takes the raw rows of the range whose sender is one of the senders. For the sender,
/// a row brings its bytes as sent inside where the receiver is inside, and as sent outside where it is
/// not, and nothing as received.
pub proof fn senders_are_selected_for_what_they_sent()
    ensures
        sql::REBUILD_SENT@ == "), r.ts) AS bucket, r."@ + "srcaddr"@ + " AS addr, "@
            + term_text(Term::Nothing, "dstaddr"@) + " AS irxb, "@
            + term_text(Term::Inside, "dstaddr"@) + " AS itxb, "@
            + term_text(Term::Nothing, "dstaddr"@) + " AS erxb, "@
            + term_text(Term::Outside, "dstaddr"@) + " AS etxb FROM flow_raw r JOIN "@
            + "filter_senders"@ + " m ON m.addr = r."@ + "srcaddr"@
            + " WHERE r.ts >= $1 AND r.ts < $2 UNION ALL SELECT time_bucket(make_interval(secs => "@,
{
    reveal_strlit(
        "), r.ts) AS bucket, r.srcaddr AS addr, 0::bigint AS irxb, CASE WHEN r.dstaddr <<= \
        $3::text::inet THEN r.d_octets * r.sampling_interval ELSE 0 END AS itxb, 0::bigint \
        AS erxb, CASE WHEN r.dstaddr <<= $3::text::inet THEN 0 ELSE r.d_octets * \
        r.sampling_interval END AS etxb FROM flow_raw r JOIN filter_senders m ON m.addr = \
        r.srcaddr WHERE r.ts >= $1 AND r.ts < $2 UNION ALL SELECT \
        time_bucket(make_interval(secs => ",
    );
    reveal_strlit("), r.ts) AS bucket, r.");
    reveal_strlit("srcaddr");
    reveal_strlit(" AS addr, ");
    reveal_strlit("0::bigint");
    reveal_strlit(" AS irxb, ");
    reveal_strlit("CASE WHEN r.");
    reveal_strlit("dstaddr");
    reveal_strlit(" <<= $3::text::inet THEN r.d_octets * r.sampling_interval ELSE 0 END");
    reveal_strlit(" AS itxb, ");
    reveal_strlit(" AS erxb, ");
    reveal_strlit(" <<= $3::text::inet THEN 0 ELSE r.d_octets * r.sampling_interval END");
    reveal_strlit(" AS etxb FROM flow_raw r JOIN ");
    reveal_strlit("filter_senders");
    reveal_strlit(" m ON m.addr = r.");
    reveal_strlit(
        " WHERE r.ts >= $1 AND r.ts < $2 UNION ALL SELECT time_bucket(make_interval(secs => ",
    );
    assert(sql::REBUILD_SENT@ =~= "), r.ts) AS bucket, r."@ + "srcaddr"@ + " AS addr, "@
        + term_text(Term::Nothing, "dstaddr"@) + " AS irxb, "@
        + term_text(Term::Inside, "dstaddr"@) + " AS itxb, "@
        + term_text(Term::Nothing, "dstaddr"@) + " AS erxb, "@
        + term_text(Term::Outside, "dstaddr"@) + " AS etxb FROM flow_raw r JOIN "@
        + "filter_senders"@ + " m ON m.addr = r."@ + "srcaddr"@
        + " WHERE r.ts >= $1 AND r.ts < $2 UNION ALL SELECT time_bucket(make_interval(secs => "@);
}

/// The second selection takes the raw rows of the range whose receiver is one of the receivers. For the
/// receiver, a row brings its bytes as received inside where the sender is inside, and as received
/// outside where it is not, and nothing as sent. What both bring is added up by bucket and host.
pub proof fn receivers_are_selected_for_what_they_received()
    ensures
        sql::REBUILD_RECEIVED@ == "), r.ts), r."@ + "dstaddr"@ + ", "@
            + term_text(Term::Inside, "srcaddr"@) + ", "@ + term_text(Term::Nothing, "srcaddr"@)
            + ", "@ + term_text(Term::Outside, "srcaddr"@) + ", "@
            + term_text(Term::Nothing, "srcaddr"@) + " FROM flow_raw r JOIN "@
            + "filter_receivers"@ + " m ON m.addr = r."@ + "dstaddr"@
            + " WHERE r.ts >= $1 AND r.ts < $2 ) s GROUP BY bucket, addr"@,
{
    reveal_strlit(
        "), r.ts), r.dstaddr, CASE WHEN r.srcaddr <<= $3::text::inet THEN r.d_octets * \
        r.sampling_interval ELSE 0 END, 0::bigint, CASE WHEN r.srcaddr <<= $3::text::inet \
        THEN 0 ELSE r.d_octets * r.sampling_interval END, 0::bigint FROM flow_raw r JOIN \
        filter_receivers m ON m.addr = r.dstaddr WHERE r.ts >= $1 AND r.ts < $2 ) s GROUP \
        BY bucket, addr",
    );
    reveal_strlit("), r.ts), r.");
    reveal_strlit("dstaddr");
    reveal_strlit(", ");
    reveal_strlit("CASE WHEN r.");
    reveal_strlit("srcaddr");
    reveal_strlit(" <<= $3::text::inet THEN r.d_octets * r.sampling_interval ELSE 0 END");
    reveal_strlit("0::bigint");
    reveal_strlit(" <<= $3::text::inet THEN 0 ELSE r.d_octets * r.sampling_interval END");
    reveal_strlit(" FROM flow_raw r JOIN ");
    reveal_strlit("filter_receivers");
    reveal_strlit(" m ON m.addr = r.");
    reveal_strlit(" WHERE r.ts >= $1 AND r.ts < $2 ) s GROUP BY bucket, addr");
    assert(sql::REBUILD_RECEIVED@ =~= "), r.ts), r."@ + "dstaddr"@ + ", "@
        + term_text(Term::Inside, "srcaddr"@) + ", "@ + term_text(Term::Nothing, "srcaddr"@)
        + ", "@ + term_text(Term::Outside, "srcaddr"@) + ", "@
        + term_text(Term::Nothing, "srcaddr"@) + " FROM flow_raw r JOIN "@
        + "filter_receivers"@ + " m ON m.addr = r."@ + "dstaddr"@
        + " WHERE r.ts >= $1 AND r.ts < $2 ) s GROUP BY bucket, addr"@);
}

/// What the two selections bring for a raw row, counter by counter, is what a raw row counts for its
/// sender and for its receiver when buckets are rebuilt.
pub proof fn the_selections_bring_what_is_counted(row: FlowRow, intra: IntraCidr)
    ensures
        ({
            let inside = row.dst_addr & intra.mask == intra.network;
            let sent = tables::raw_src_gain(row, intra);
            &&& sent.intra_rx == term_value(Term::Nothing, row, inside)
            &&& sent.intra_tx == term_value(Term::Inside, row, inside)
            &&& sent.ext_rx == term_value(Term::Nothing, row, inside)
            &&& sent.ext_tx == term_value(Term::Outside, row, inside)
        }),
        ({
            let inside = row.src_addr & intra.mask == intra.network;
            let received = tables::raw_dst_gain(row, intra);
            &&& received.intra_rx == term_value(Term::Inside, row, inside)
            &&& received.intra_tx == term_value(Term::Nothing, row, inside)
            &&& received.ext_rx == term_value(Term::Outside, row, inside)
            &&& received.ext_tx == term_value(Term::Nothing, row, inside)
        }),
{
}

} // verus!
