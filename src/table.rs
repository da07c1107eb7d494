use vstd::prelude::*;

use crate::html::views;
use crate::record::Enterprise;

verus! {

/// The column labels of the output table, in order.
pub open spec fn header_view() -> Seq<Seq<char>> {
    seq!["Nombre"@, "Domicilio"@, "Teléfono"@, "Correo electrónico"@, "Persona de contacto"@]
}

/// A record as a table row: name, address, phone, email, contact person.
pub open spec fn row_view(e: Enterprise) -> Seq<Seq<char>> {
    seq![e.name@, e.address@, e.phone@, e.email@, e.contact_person@]
}

/// The rows of the output table for `records`: nothing at all for no records,
/// else the header row followed by one row per record, in order.
pub open spec fn table_view(records: Seq<Enterprise>) -> Seq<Seq<Seq<char>>> {
    if records.len() == 0 {
        Seq::empty()
    } else {
        seq![header_view()] + records.map_values(|e: Enterprise| row_view(e))
    }
}

/// The views of a table of strings.
pub open spec fn table_views(t: Seq<Vec<String>>) -> Seq<Seq<Seq<char>>> {
    t.map_values(|r: Vec<String>| views(r@))
}

/// The column labels of the output table.
pub fn header_row() -> (r: Vec<String>)
    ensures
        views(r@) == header_view(),
{
    let r = vec![
        String::from_str("Nombre"),
        String::from_str("Domicilio"),
        String::from_str("Teléfono"),
        String::from_str("Correo electrónico"),
        String::from_str("Persona de contacto"),
    ];
    assert(views(r@) =~= header_view());
    r
}

/// One record as a table row.
pub fn enterprise_row(e: &Enterprise) -> (r: Vec<String>)
    ensures
        views(r@) == row_view(*e),
{
    let r = vec![e.name.clone(), e.address.clone(), e.phone.clone(), e.email.clone(), e.contact_person.clone()];
    assert(views(r@) =~= row_view(*e));
    r
}

/// The rows to write for the collected records: none when there are no
/// records (not even the header), else the header and then one row per record.
pub fn csv_rows(records: &Vec<Enterprise>) -> (r: Vec<Vec<String>>)
    ensures
        table_views(r@) == table_view(records@),
        records@.len() == 0 ==> r@.len() == 0,
{
    let mut r: Vec<Vec<String>> = Vec::new();
    if records.len() == 0 {
        assert(table_views(r@) =~= table_view(records@));
        return r;
    }
    r.push(header_row());
    let mut i: usize = 0;
    while i < records.len()
        invariant
            i <= records@.len(),
            records@.len() > 0,
            table_views(r@) == seq![header_view()] + records@.take(i as int).map_values(|e: Enterprise| row_view(e)),
        decreases records@.len() - i,
    {
        let ghost before = r@;
        r.push(enterprise_row(&records[i]));
        assert(table_views(r@) =~= table_views(before).push(row_view(records@[i as int])));
        assert(records@.take(i + 1).map_values(|e: Enterprise| row_view(e))
            =~= records@.take(i as int).map_values(|e: Enterprise| row_view(e)).push(row_view(records@[i as int])));
        i = i + 1;
    }
    assert(records@.take(i as int) =~= records@);
    r
}

} // verus!
