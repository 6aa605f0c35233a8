use vstd::prelude::*;

use crate::text::{
    decimal, free_of, join, lemma_join_free, lemma_join_len, lemma_read_decimal,
    lemma_split_join, push_char, push_decimal, push_joined, push_str, read_decimal, split,
};

verus! {

/// One result row of the remote data source.
pub struct Record {
    pub host_provider: Vec<String>,
    pub hostname: String,
    pub mail_provider: Vec<Option<String>>,
    pub open_page_rank: Option<isize>,
}

/// The records of one page, nested as the remote response nests them.
pub struct Data {
    pub records: Vec<Record>,
}

pub struct ServerResponse {
    pub data: Data,
}

pub struct PageProps {
    pub server_response: ServerResponse,
}

/// One decoded page of results.
pub struct PageResponse {
    pub page_props: PageProps,
}

/// Names as text.
pub open spec fn names_view(v: Seq<String>) -> Seq<Seq<char>> {
    v.map_values(|p: String| p@)
}

/// Optional names as text, an absent name reading as empty text.
pub open spec fn optional_names_view(v: Seq<Option<String>>) -> Seq<Seq<char>> {
    v.map_values(|m: Option<String>| match m {
        Some(s) => s@,
        None => Seq::empty(),
    })
}

/// The four CSV fields of a record: host providers joined by `|`, host
/// name, mail providers joined by `|`, and the rank (zero when absent).
pub open spec fn csv_fields(r: &Record) -> Seq<Seq<char>> {
    seq![
        join(names_view(r.host_provider@), '|'),
        r.hostname@,
        join(optional_names_view(r.mail_provider@), '|'),
        decimal(rank_or_zero(r)),
    ]
}

pub open spec fn rank_or_zero(r: &Record) -> int {
    match r.open_page_rank {
        Some(n) => n as int,
        None => 0,
    }
}

/// The CSV line of a record: its fields joined by `,`.
pub open spec fn csv_line(r: &Record) -> Seq<char> {
    join(csv_fields(r), ',')
}

/// A `|`-joined list field read back; an empty field is an empty list.
pub open spec fn read_list(field: Seq<char>) -> Seq<Seq<char>> {
    if field.len() == 0 {
        Seq::empty()
    } else {
        split(field, '|')
    }
}

/// A CSV line read back: split on `,`, then the list fields on `|`.
pub open spec fn read_csv(line: Seq<char>) -> (Seq<Seq<char>>, Seq<char>, Seq<Seq<char>>, int) {
    let f = split(line, ',');
    (read_list(f[0]), f[1], read_list(f[2]), read_decimal(f[3]))
}

/// A name that survives the CSV encoding: not empty, and free of both separators.
pub open spec fn plain_name(s: Seq<char>) -> bool {
    s.len() > 0 && free_of(s, ',') && free_of(s, '|')
}

impl Record {
    /// Mail providers with an absent name written as empty text.
    fn mail_names(&self) -> (r: Vec<String>)
        ensures
            names_view(r@) == optional_names_view(self.mail_provider@),
    {
        let mut r: Vec<String> = Vec::new();
        let mut i: usize = 0;
        while i < self.mail_provider.len()
            invariant
                i <= self.mail_provider.len(),
                names_view(r@) == optional_names_view(self.mail_provider@).take(i as int),
            decreases self.mail_provider.len() - i,
        {
            let name = match &self.mail_provider[i] {
                Some(s) => s.clone(),
                None => String::new(),
            };
            assert(name@ == optional_names_view(self.mail_provider@)[i as int]);
            let ghost before = r@;
            r.push(name);
            assert(names_view(r@) =~= names_view(before).push(name@));
            i = i + 1;
            assert(names_view(r@) =~= optional_names_view(self.mail_provider@).take(i as int));
        }
        assert(optional_names_view(self.mail_provider@).take(i as int)
            =~= optional_names_view(self.mail_provider@));
        r
    }

    /// The record as one CSV line (no line break).
    pub fn as_csv(&self) -> (r: String)
        ensures
            r@ == csv_line(self),
    {
        let mut out = String::new();
        push_joined(&mut out, &self.host_provider, '|');
        push_char(&mut out, ',');
        push_str(&mut out, self.hostname.as_str());
        push_char(&mut out, ',');
        let mail = self.mail_names();
        push_joined(&mut out, &mail, '|');
        push_char(&mut out, ',');
        let rank: isize = match self.open_page_rank {
            Some(n) => n,
            None => 0,
        };
        push_decimal(&mut out, rank);
        proof {
            let f = csv_fields(self);
            let g = f.drop_last().drop_last();
            assert(g.len() == 2);
            assert(g.drop_last() =~= seq![f[0]]);
            assert(g.last() == f[1]);
            assert(join(g.drop_last(), ',') == f[0]);
            assert(join(g, ',') == join(g.drop_last(), ',') + seq![','] + g.last());
            assert(f.drop_last().last() == f[2]);
            assert(join(f.drop_last().drop_last(), ',') =~= f[0] + seq![','] + f[1]);
            assert(join(f.drop_last(), ',') =~= f[0] + seq![','] + f[1] + seq![','] + f[2]);
            assert(out@ =~= join(f, ','));
        }
        out
    }

    /// Header row naming the CSV columns.
    pub fn csv_header() -> (r: &'static str)
        ensures
            r@ == "host_provider,domain,mail_provider,rank"@,
    {
        "host_provider,domain,mail_provider,rank"
    }
}

/// Serialising a record and reading the line back gives its fields again,
/// when every provider name is present, non-empty and free of `,` and `|`,
/// and the host name is free of `,`. An absent rank reads back as zero.
pub proof fn lemma_csv_round_trip(r: &Record)
    requires
        forall|i: int| 0 <= i < r.host_provider@.len() ==> plain_name(#[trigger] r.host_provider@[i]@),
        forall|i: int| 0 <= i < r.mail_provider@.len() ==> (#[trigger] r.mail_provider@[i]) is Some,
        forall|i: int| 0 <= i < r.mail_provider@.len() ==> plain_name(r.mail_provider@[i]->0@),
        free_of(r.hostname@, ','),
    ensures
        read_csv(csv_line(r)) == (
            names_view(r.host_provider@),
            r.hostname@,
            optional_names_view(r.mail_provider@),
            rank_or_zero(r),
        ),
{
    let hosts = names_view(r.host_provider@);
    let mails = optional_names_view(r.mail_provider@);
    assert forall|i: int| 0 <= i < hosts.len() implies plain_name(#[trigger] hosts[i]) by {
        assert(hosts[i] == r.host_provider@[i]@);
    }
    assert forall|i: int| 0 <= i < mails.len() implies plain_name(#[trigger] mails[i]) by {
        assert(r.mail_provider@[i] is Some);
        assert(mails[i] == r.mail_provider@[i]->0@);
    }
    lemma_list_field(hosts);
    lemma_list_field(mails);
    lemma_read_decimal(rank_or_zero(r));
    let f = csv_fields(r);
    assert forall|i: int| 0 <= i < f.len() implies free_of(#[trigger] f[i], ',') by {
        if i == 0 {
            assert(f[0] == join(hosts, '|'));
        } else if i == 2 {
            assert(f[2] == join(mails, '|'));
        }
    }
    lemma_split_join(f, ',');
}

/// A list of plain names, joined by `|`, holds no `,` and reads back to itself.
proof fn lemma_list_field(parts: Seq<Seq<char>>)
    requires
        forall|i: int| 0 <= i < parts.len() ==> plain_name(#[trigger] parts[i]),
    ensures
        free_of(join(parts, '|'), ','),
        read_list(join(parts, '|')) == parts,
{
    assert forall|i: int| 0 <= i < parts.len() implies free_of(#[trigger] parts[i], ',') by {
        assert(plain_name(parts[i]));
    }
    lemma_join_free(parts, '|', ',');
    if parts.len() == 0 {
        assert(join(parts, '|').len() == 0);
        assert(read_list(join(parts, '|')) =~= parts);
    } else {
        assert(plain_name(parts.last()));
        lemma_join_len(parts, '|');
        assert forall|i: int| 0 <= i < parts.len() implies free_of(#[trigger] parts[i], '|') by {
            assert(plain_name(parts[i]));
        }
        lemma_split_join(parts, '|');
    }
}

impl PageResponse {
    pub open spec fn spec_records(&self) -> Seq<Record> {
        self.page_props.server_response.data.records@
    }

    pub fn into_records(self) -> (r: Vec<Record>)
        ensures
            r@ == self.spec_records(),
    {
        self.page_props.server_response.data.records
    }

    pub fn as_records(&self) -> (r: &[Record])
        ensures
            r@ == self.spec_records(),
    {
        self.page_props.server_response.data.records.as_slice()
    }

    /// A page holding the given records.
    pub fn from_records(records: Vec<Record>) -> (r: PageResponse)
        ensures
            r.spec_records() == records@,
    {
        PageResponse { page_props: PageProps { server_response: ServerResponse { data: Data { records } } } }
    }
}

} // verus!
