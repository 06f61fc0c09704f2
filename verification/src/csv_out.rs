//! CSV serialization of the table.
//!
//! The encoding is the csv crate's default: fields joined by commas, a
//! record ended by LF, and a field quoted exactly when it holds a comma, a
//! quote, CR or LF, with embedded quotes doubled.

use vstd::prelude::*;

use crate::column::column_get;
use crate::table::{
    benchmark_label, parameter_label, table_names, union_pairs, pair_views, ColModel, Table,
};

verus! {

/// A byte that forces its field into quotes: comma, quote, LF or CR.
pub open spec fn is_csv_special(c: u8) -> bool {
    c == 44 || c == 34 || c == 10 || c == 13
}

/// Whether a field must be quoted.
pub open spec fn needs_quotes(f: Seq<u8>) -> bool {
    exists|k: int| 0 <= k < f.len() && is_csv_special(f[k])
}

/// The field with every quote byte doubled.
pub open spec fn double_quotes(f: Seq<u8>) -> Seq<u8>
    decreases f.len(),
{
    if f.len() == 0 {
        Seq::empty()
    } else {
        (if f.first() == 34 {
            seq![34u8, 34u8]
        } else {
            seq![f.first()]
        }) + double_quotes(f.drop_first())
    }
}

/// One encoded field: quoted, with quotes doubled, only when needed.
pub open spec fn encode_field(f: Seq<u8>) -> Seq<u8> {
    if needs_quotes(f) {
        seq![34u8] + double_quotes(f) + seq![34u8]
    } else {
        f
    }
}

/// The fields of one record, encoded and joined by commas.
pub open spec fn encode_fields(fs: Seq<Seq<u8>>) -> Seq<u8>
    decreases fs.len(),
{
    if fs.len() == 0 {
        Seq::empty()
    } else if fs.len() == 1 {
        encode_field(fs[0])
    } else {
        encode_fields(fs.drop_last()) + seq![44u8] + encode_field(fs.last())
    }
}

/// One encoded record: the joined fields and the LF terminator.
pub open spec fn encode_record(fs: Seq<Seq<u8>>) -> Seq<u8> {
    encode_fields(fs) + seq![10u8]
}

/// The encoded records, concatenated.
pub open spec fn encode_records(rs: Seq<Seq<Seq<u8>>>) -> Seq<u8>
    decreases rs.len(),
{
    if rs.len() == 0 {
        Seq::empty()
    } else {
        encode_records(rs.drop_last()) + encode_record(rs.last())
    }
}

/// Relies on csv::Writer in its default configuration: write_record joins
/// the fields with commas, quoting a field (doubling its quotes) exactly
/// when it holds a comma, a quote, CR or LF, and ends the record with LF;
/// writing into a Vec cannot fail. A record of fewer than two fields is
/// kept out: csv writes a lone empty field as a pair of quotes.
#[verifier::external_body]
fn csv_record(fields: &Vec<Vec<u8>>) -> (r: Vec<u8>)
    requires
        fields@.len() >= 2,
    ensures
        r@ == encode_record(fields@.map_values(|f: Vec<u8>| f@)),
{
    let mut w = csv::Writer::from_writer(Vec::new());
    w.write_record(fields).unwrap();
    w.into_inner().unwrap()
}

/// The value the table shows for `pair` in column `c`: the recorded value,
/// or the empty string when the column has no entry for the pair.
pub open spec fn cell(c: ColModel, pair: (Seq<u8>, Seq<u8>)) -> Seq<u8> {
    match column_get(c.benches, pair.0, pair.1) {
        Some(v) => v,
        None => Seq::empty(),
    }
}

/// The header row: "benchmark", "parameter", then the column names.
pub open spec fn header_row(t: Seq<ColModel>) -> Seq<Seq<u8>> {
    seq![benchmark_label(), parameter_label()] + table_names(t)
}

/// The data row of one unioned pair: the benchmark name, the parameter
/// name, then every column's cell, columns in insertion order.
pub open spec fn data_row(t: Seq<ColModel>, pair: (Seq<u8>, Seq<u8>)) -> Seq<Seq<u8>> {
    seq![pair.0, pair.1] + t.map_values(|c: ColModel| cell(c, pair))
}

/// Every row the table serializes to: the header row, then one data row
/// per unioned pair.
pub open spec fn table_rows(t: Seq<ColModel>) -> Seq<Seq<Seq<u8>>> {
    seq![header_row(t)] + union_pairs(t).map_values(|pair: (Seq<u8>, Seq<u8>)| data_row(t, pair))
}

impl Table {
    /// Serialize the table as CSV.
    ///
    /// The header row names every column; then each (benchmark, parameter)
    /// pair seen in any column gets exactly one row, with an empty cell
    /// for every column that lacks the pair.
    pub fn write_csv(&self) -> (out: Vec<u8>)
        ensures
            out@ == encode_records(table_rows(self@)),
    {
        let mut out: Vec<u8> = Vec::new();
        let headers = self.headers();
        proof {
            assert(headers@.map_values(|f: Vec<u8>| f@) == header_row(self@));
            assert(headers@.len() == header_row(self@).len());
        }
        let mut rec = csv_record(&headers);
        let ghost recv = rec@;
        out.append(&mut rec);
        proof {
            let rows = table_rows(self@);
            assert(recv == encode_record(header_row(self@)));
            assert(out@ =~= recv);
            assert(rows.take(1).drop_last() =~= Seq::<Seq<Seq<u8>>>::empty());
            assert(rows.take(1).last() == rows[0]);
            assert(rows[0] == header_row(self@));
            assert(encode_records(Seq::<Seq<Seq<u8>>>::empty()) =~= Seq::<u8>::empty());
            assert(encode_records(rows.take(1)) == encode_records(rows.take(1).drop_last())
                + encode_record(rows.take(1).last()));
            assert(out@ =~= encode_records(rows.take(1)));
        }
        let pairs = self.benchmarks_and_parameters();
        let mut k: usize = 0;
        while k < pairs.len()
            invariant
                k <= pairs.len(),
                pair_views(pairs@) == union_pairs(self@),
                out@ == encode_records(table_rows(self@).take(1 + k as int)),
            decreases pairs.len() - k,
        {
            let ghost pairv = pair_views(pairs@)[k as int];
            let mut row: Vec<Vec<u8>> = Vec::new();
            row.push(vstd::slice::slice_to_vec(pairs[k].0.as_slice()));
            row.push(vstd::slice::slice_to_vec(pairs[k].1.as_slice()));
            let mut ci: usize = 0;
            while ci < self.columns.len()
                invariant
                    ci <= self.columns.len(),
                    row@.len() == 2 + ci,
                    row@[0]@ == pairv.0,
                    row@[1]@ == pairv.1,
                    forall|m: int| 0 <= m < ci ==> row@[2 + m]@ == cell(self@[m], pairv),
                decreases self.columns.len() - ci,
            {
                match self.columns[ci].column.get(&pairs[k].0, &pairs[k].1) {
                    Some(v) => {
                        row.push(vstd::slice::slice_to_vec(v.as_slice()));
                    },
                    None => {
                        row.push(Vec::new());
                    },
                }
                proof {
                    assert(row@[2 + ci as int]@ == cell(self@[ci as int], pairv));
                }
                ci = ci + 1;
            }
            proof {
                assert(row@.map_values(|f: Vec<u8>| f@) =~= data_row(self@, pairv));
            }
            let mut rec = csv_record(&row);
            out.append(&mut rec);
            proof {
                let rows = table_rows(self@);
                assert(rows[1 + k as int] == data_row(self@, pairv));
                assert(rows.take(1 + k as int + 1).drop_last() =~= rows.take(1 + k as int));
                assert(rows.take(1 + k as int + 1).last() == rows[1 + k as int]);
                assert(out@ =~= encode_records(rows.take(1 + k as int + 1)));
            }
            k = k + 1;
        }
        proof {
            assert(table_rows(self@).take(table_rows(self@).len() as int) =~= table_rows(self@));
            assert(table_rows(self@).len() == 1 + pairs@.len());
        }
        out
    }
}

} // verus!
