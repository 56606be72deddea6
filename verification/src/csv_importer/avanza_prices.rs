//! The importer of Avanza positions exports: one price directive per holding,
//! its market value divided by its volume, in SEK, dated by the export's file
//! name (`YYYY-MM-DD...`). The columns are `Namn;Kortnamn;Volym;Marknadsvärde;...`.

use vstd::prelude::*;
use crate::commodity_value::fixed_decimal::{FixedDecimal, decimal_parse, decimal_quotient, invalid_decimal_msg, normalize};
use crate::date::{Date, chrono_parse_date};
use crate::error::RsledgerError;
use crate::journal::account::string_views;
use crate::journal::commodity_value::commodity::Commodity;
use crate::price::{PriceDirective, PriceView};
use crate::text::{pow10, chars_before_byte, chars_of, is_boundary, replace_char, replace_chars, string_from, take_bytes, trim, trim_chars};
use crate::transaction::commodity_value::CommodityValue;
use super::ImportCandidate;
use super::csv_text::{csv_parse, csv_records, first_csv_error, records_before_error, records_until_error};
use super::generic_importer::record_views;

verus! {

/// The item the importer's errors are reported against.
pub open spec fn prices_source() -> Seq<char> {
    "Avanza CSV"@
}

pub open spec fn file_date_msg(file_name: Seq<char>) -> Seq<char> {
    "Could not parse date from file name '"@ + file_name + "'. Expected format: YYYY-MM-DD."@
}

/// The date of an export: its file name's first ten bytes read as `YYYY-MM-DD`.
pub open spec fn export_date(file_name: Seq<char>) -> Result<(int, int, int), Seq<char>> {
    match chrono_parse_date(file_name.take(chars_before_byte(file_name, 10)), "%Y-%m-%d"@) {
        Ok(d) => Ok((d.0 as int, d.1 as int, d.2 as int)),
        Err(_) => Err(file_date_msg(file_name)),
    }
}

/// A field of a record, or empty when the record is shorter.
pub open spec fn field_or_empty(rec: Seq<Seq<char>>, i: int) -> Seq<char> {
    if 0 <= i < rec.len() { rec[i] } else { Seq::empty() }
}

/// A number of a record: the field trimmed, its decimal comma made a point.
pub open spec fn number_text(rec: Seq<Seq<char>>, i: int) -> Seq<char> {
    replace_char(trim(field_or_empty(rec, i)), ',', '.')
}

pub open spec fn volume_msg(v: Seq<char>) -> Seq<char> {
    "Could not parse volume '"@ + v + "': "@ + invalid_decimal_msg(v)
}

pub open spec fn market_value_msg(v: Seq<char>) -> Seq<char> {
    "Could not parse market value '"@ + v + "': "@ + invalid_decimal_msg(v)
}

pub open spec fn quotient_msg(name: Seq<char>) -> Seq<char> {
    "Could not compute the price of '"@ + name + "'."@
}

/// The price of one holding on `date`: `None` for a zero volume (no price
/// can be derived); an error when the volume or (for a non-zero volume) the
/// market value does not parse, or when the quotient cannot be computed (see
/// `decimal_quotient`).
pub open spec fn holding_price(date: (int, int, int), rec: Seq<Seq<char>>) -> Result<Option<PriceView>, Seq<char>> {
    let name = trim(field_or_empty(rec, 0));
    let vt = number_text(rec, 2);
    match decimal_parse(vt) {
        None => Err(volume_msg(vt)),
        Some(v) => if v.0 == 0 {
            Ok(None)
        } else {
            let mt = number_text(rec, 3);
            match decimal_parse(mt) {
                None => Err(market_value_msg(mt)),
                Some(m) => match decimal_quotient(normalize(m.0, m.1), normalize(v.0, v.1)) {
                    None => Err(quotient_msg(name)),
                    Some(q) => Ok(Some((date, name, (q, "SEK"@)))),
                },
            }
        },
    }
}

/// The prices of the first `n` holdings, or the error of the first that fails.
pub open spec fn holding_prices(date: (int, int, int), recs: Seq<Seq<Seq<char>>>, n: int) -> Result<Seq<PriceView>, Seq<char>>
    decreases n,
{
    if n <= 0 || n > recs.len() {
        Ok(Seq::empty())
    } else {
        match holding_prices(date, recs, n - 1) {
            Err(m) => Err(m),
            Ok(prev) => match holding_price(date, recs[n - 1]) {
                Err(m) => Err(m),
                Ok(None) => Ok(prev),
                Ok(Some(p)) => Ok(prev.push(p)),
            },
        }
    }
}

pub open spec fn price_candidate_views(cs: Seq<ImportCandidate<PriceDirective>>) -> Seq<(bool, PriceView)> {
    cs.map_values(|c: ImportCandidate<PriceDirective>| c@)
}

/// Once a holding fails, the prices of more holdings fail the same way.
proof fn lemma_holding_prices_err_stays(date: (int, int, int), recs: Seq<Seq<Seq<char>>>, n: int, m: int)
    requires
        0 < n <= m <= recs.len(),
        holding_prices(date, recs, n) is Err,
    ensures
        holding_prices(date, recs, m) == holding_prices(date, recs, n),
    decreases m - n,
{
    if m > n {
        lemma_holding_prices_err_stays(date, recs, n, m - 1);
    }
}

/// Importer for Avanza positions CSV exports.
pub struct AvanzaPricesImporter;

impl AvanzaPricesImporter {
    pub fn new() -> (r: Self) {
        AvanzaPricesImporter
    }

    /// The date of an export from its file name's first ten bytes
    /// (`YYYY-MM-DD`); the file name must be at least ten bytes long and
    /// have a character boundary there.
    pub fn file_date(&self, file_name: &str) -> (r: Result<Date, RsledgerError>)
        requires
            is_boundary(file_name@, 10),
        ensures
            match export_date(file_name@) {
                Ok(d) => r matches Ok(x) && x@ == d,
                Err(m) => r matches Err(RsledgerError::ParseError(item, why)) && item@ == prices_source() && why@ == m,
            },
    {
        let head = match take_bytes(&chars_of(file_name), 10) {
            Some(v) => v,
            None => return Err(RsledgerError::ParseError("Avanza CSV".to_owned(), "".to_owned())),
        };
        let head_text = string_from(&head);
        match Date::parse_from_str(head_text.as_str(), "%Y-%m-%d") {
            Ok(d) => Ok(d),
            Err(_) => {
                let mut m = "Could not parse date from file name '".to_owned();
                m.append(file_name);
                m.append("'. Expected format: YYYY-MM-DD.");
                Err(RsledgerError::ParseError("Avanza CSV".to_owned(), m))
            },
        }
    }

    /// The price of one holding (see `holding_price`), the error as a message.
    pub fn holding_price(&self, date: Date, rec: &Vec<String>) -> (r: Result<Option<PriceDirective>, String>)
        ensures
            match holding_price(date@, string_views(rec@)) {
                Ok(None) => r matches Ok(None),
                Ok(Some(p)) => r matches Ok(Some(x)) && x@ == p,
                Err(m) => r matches Err(e) && e@ == m,
            },
    {
        let ghost rv = string_views(rec@);
        let name_chars: Vec<char> = if rec.len() > 0 {
            assert(rv[0] == rec@[0]@);
            trim_chars(&chars_of(rec[0].as_str()))
        } else {
            Vec::new()
        };
        assert(name_chars@ == trim(field_or_empty(rv, 0)));
        let volume_chars: Vec<char> = if rec.len() > 2 {
            assert(rv[2] == rec@[2]@);
            replace_chars(&trim_chars(&chars_of(rec[2].as_str())), ',', '.')
        } else {
            Vec::new()
        };
        proof {
            if rec.len() <= 2 {
                assert(replace_char(trim(Seq::<char>::empty()), ',', '.') =~= Seq::<char>::empty());
            }
        }
        assert(volume_chars@ == number_text(rv, 2));
        let volume_text = string_from(&volume_chars);
        let volume = match FixedDecimal::from_str(volume_text.as_str()) {
            Ok(v) => v,
            Err(e) => {
                let mut m = "Could not parse volume '".to_owned();
                m.append(volume_text.as_str());
                m.append("': ");
                m.append(e.as_str());
                return Err(m);
            },
        };
        if volume.raw_amount() == 0 {
            proof {
                let v = decimal_parse(volume_text@)->Some_0;
                let n = normalize(v.0, v.1);
                crate::commodity_value::fixed_decimal::lemma_normalize(v.0, v.1);
                crate::text::lemma_pow10_pos(n.1);
                assert(v.0 * pow10(n.1) == 0);
                assert(v.0 == 0) by (nonlinear_arith)
                    requires
                        v.0 * pow10(n.1) == 0,
                        pow10(n.1) >= 1;
            }
            return Ok(None);
        }
        let value_chars: Vec<char> = if rec.len() > 3 {
            assert(rv[3] == rec@[3]@);
            replace_chars(&trim_chars(&chars_of(rec[3].as_str())), ',', '.')
        } else {
            Vec::new()
        };
        proof {
            if rec.len() <= 3 {
                assert(replace_char(trim(Seq::<char>::empty()), ',', '.') =~= Seq::<char>::empty());
            }
        }
        assert(value_chars@ == number_text(rv, 3));
        let value_text = string_from(&value_chars);
        let market_value = match FixedDecimal::from_str(value_text.as_str()) {
            Ok(v) => v,
            Err(e) => {
                let mut m = "Could not parse market value '".to_owned();
                m.append(value_text.as_str());
                m.append("': ");
                m.append(e.as_str());
                return Err(m);
            },
        };
        let name = string_from(&name_chars);
        match market_value.checked_div(&volume) {
            Some(q) => Ok(Some(PriceDirective {
                date,
                commodity: Commodity { name },
                value: CommodityValue::new(q, "SEK".to_owned()),
            })),
            None => {
                let mut m = "Could not compute the price of '".to_owned();
                m.append(name.as_str());
                m.append("'.");
                Err(m)
            },
        }
    }

    /// The prices of an export's holdings (its records after the header), all
    /// classified; holdings with a zero volume are left out, and the first
    /// holding that fails gives the error.
    pub fn import_records(&self, date: Date, records: &Vec<Vec<String>>) -> (r: Result<Vec<ImportCandidate<PriceDirective>>, RsledgerError>)
        ensures
            match holding_prices(date@, record_views(records@), records@.len() as int) {
                Ok(ps) => r matches Ok(v) && price_candidate_views(v@) == ps.map_values(|p: PriceView| (true, p)),
                Err(m) => r matches Err(RsledgerError::ParseError(item, why)) && item@ == prices_source() && why@ == m,
            },
    {
        let ghost recs = record_views(records@);
        let mut out: Vec<ImportCandidate<PriceDirective>> = Vec::new();
        let ghost mut ps: Seq<PriceView> = Seq::empty();
        let mut i: usize = 0;
        assert(price_candidate_views(out@) =~= ps.map_values(|p: PriceView| (true, p)));
        while i < records.len()
            invariant
                i <= records.len(),
                recs == record_views(records@),
                holding_prices(date@, recs, i as int) == Ok::<Seq<PriceView>, Seq<char>>(ps),
                price_candidate_views(out@) == ps.map_values(|p: PriceView| (true, p)),
            decreases records.len() - i,
        {
            assert(recs[i as int] == string_views(records@[i as int]@));
            match self.holding_price(date, &records[i]) {
                Ok(Some(p)) => {
                    let ghost old_out = out@;
                    let ghost pv = p@;
                    out.push(ImportCandidate::Classified(p));
                    proof {
                        ps = ps.push(pv);
                    }
                    assert(price_candidate_views(out@) =~= price_candidate_views(old_out).push((true, pv)));
                    assert(ps.map_values(|p: PriceView| (true, p)) =~= ps.drop_last().map_values(|p: PriceView| (true, p)).push((true, pv)));
                },
                Ok(None) => {},
                Err(m) => {
                    proof {
                        lemma_holding_prices_err_stays(date@, recs, i as int + 1, records@.len() as int);
                    }
                    return Err(RsledgerError::ParseError("Avanza CSV".to_owned(), m));
                },
            }
            i = i + 1;
        }
        Ok(out)
    }

    /// Imports the text of a positions export, read as `;`-separated with a
    /// header row (see `csv_parse`): the holdings are priced in order, and
    /// the first that fails, whether the CSV reader cannot read its record
    /// (reported with `source`, the export's name) or its price cannot be
    /// had, gives the error; holdings with a zero volume are left out.
    pub fn import_text(&self, date: Date, text: &[u8], source: &str) -> (r: Result<Vec<ImportCandidate<PriceDirective>>, RsledgerError>)
        ensures
            ({
                let results = csv_parse(text@, 59u8, true, false);
                let recs = records_before_error(results);
                match holding_prices(date@, recs, recs.len() as int) {
                    Err(m) => r matches Err(RsledgerError::ParseError(item, why)) && item@ == prices_source() && why@ == m,
                    Ok(ps) => match first_csv_error(results) {
                        Some(e) => r matches Err(RsledgerError::ParseError(item, why)) && item@ == prices_source()
                            && why@ == "Failed to read a record in CSV file '"@ + source@ + "': "@ + e,
                        None => r matches Ok(v) && price_candidate_views(v@) == ps.map_values(|p: PriceView| (true, p)),
                    },
                }
            }),
    {
        let results = csv_records(text, 59u8, true, false);
        let (records, failure) = records_until_error(results);
        let prices = match self.import_records(date, &records) {
            Ok(v) => v,
            Err(e) => return Err(e),
        };
        match failure {
            Some(e) => {
                let mut why = "Failed to read a record in CSV file '".to_owned();
                why.append(source);
                why.append("': ");
                why.append(e.as_str());
                Err(RsledgerError::ParseError("Avanza CSV".to_owned(), why))
            },
            None => Ok(prices),
        }
    }
}

} // verus!
