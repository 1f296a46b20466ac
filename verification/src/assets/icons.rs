//! Icon lookup over three name tables: Material Symbols (`name<TAB>path`),
//! cloud provider icons (`name<TAB>viewBox<TAB>inner svg`) and Tabler
//! stroke icons (`name<TAB>path`). Lines that are empty or start with `#`
//! are comments; a name listed twice keeps its last entry.
use vstd::prelude::*;
use crate::text::{chars_of, push_char};

verus! {

/// Index of the first `c` at or after `i`, or the length when there is none.
pub open spec fn first_of(s: Seq<char>, c: char, i: int) -> int
    decreases s.len() - i,
{
    if i >= s.len() {
        s.len() as int
    } else if s[i] == c {
        i
    } else {
        first_of(s, c, i + 1)
    }
}

/// A line without the `\r` of a `\r\n` ending.
pub open spec fn strip_cr(l: Seq<char>) -> Seq<char> {
    if l.len() > 0 && l.last() == '\r' { l.drop_last() } else { l }
}

/// The lines of `s` from position `start` on, as `str::lines` yields them:
/// split at `\n`, a `\r` before the `\n` dropped, no empty line after a
/// final `\n`.
pub open spec fn lines_from(s: Seq<char>, start: int) -> Seq<Seq<char>>
    decreases s.len() - start,
{
    if start < 0 || start >= s.len() {
        seq![]
    } else {
        let e = first_of(s, '\n', start);
        proof {
            lemma_first_of_bounds(s, '\n', start);
        }
        if e >= s.len() {
            seq![s.subrange(start, s.len() as int)]
        } else {
            seq![strip_cr(s.subrange(start, e))] + lines_from(s, e + 1)
        }
    }
}

/// The lines of a text.
pub open spec fn lines_of(s: Seq<char>) -> Seq<Seq<char>> {
    lines_from(s, 0)
}

pub proof fn lemma_first_of_skip(s: Seq<char>, c: char, a: int, b: int)
    requires
        0 <= a <= b <= s.len(),
        forall|k: int| a <= k < b ==> s[k] != c,
    ensures
        first_of(s, c, a) == first_of(s, c, b),
    decreases b - a,
{
    if a < b {
        lemma_first_of_skip(s, c, a + 1, b);
    }
}

pub proof fn lemma_first_of_bounds(s: Seq<char>, c: char, i: int)
    requires
        0 <= i,
    ensures
        i <= first_of(s, c, i) || i >= s.len(),
        first_of(s, c, i) <= s.len(),
        first_of(s, c, i) < s.len() ==> s[first_of(s, c, i)] == c,
    decreases s.len() - i,
{
    if i < s.len() && s[i] != c {
        lemma_first_of_bounds(s, c, i + 1);
    }
}

/// Views of a list of character vectors.
pub open spec fn char_views(v: Seq<Vec<char>>) -> Seq<Seq<char>> {
    v.map_values(|x: Vec<char>| x@)
}

pub(crate) fn copy_range(v: &Vec<char>, a: usize, b: usize) -> (r: Vec<char>)
    requires
        a <= b <= v@.len(),
    ensures
        r@ == v@.subrange(a as int, b as int),
{
    let mut r: Vec<char> = Vec::new();
    let mut i = a;
    while i < b
        invariant
            a <= i <= b,
            b <= v@.len(),
            r@ == v@.subrange(a as int, i as int),
        decreases b - i,
    {
        r.push(v[i]);
        assert(v@.subrange(a as int, i + 1) =~= v@.subrange(a as int, i as int).push(v@[i as int]));
        i = i + 1;
    }
    r
}

fn string_range(v: &Vec<char>, a: usize, b: usize) -> (r: String)
    requires
        a <= b <= v@.len(),
    ensures
        r@ == v@.subrange(a as int, b as int),
{
    let mut r = String::new();
    let mut i = a;
    while i < b
        invariant
            a <= i <= b,
            b <= v@.len(),
            r@ == v@.subrange(a as int, i as int),
        decreases b - i,
    {
        push_char(&mut r, v[i]);
        assert(v@.subrange(a as int, i + 1) =~= v@.subrange(a as int, i as int).push(v@[i as int]));
        i = i + 1;
    }
    r
}

/// The lines of a text, each as its characters.
pub fn lines(text: &str) -> (r: Vec<Vec<char>>)
    ensures
        char_views(r@) == lines_of(text@),
{
    let s = chars_of(text);
    let n = s.len();
    let mut done: Vec<Vec<char>> = Vec::new();
    let mut start: usize = 0;
    let mut i: usize = 0;
    while i < n
        invariant
            n == s@.len(),
            s@ == text@,
            start <= i <= n,
            forall|k: int| start <= k < i ==> s@[k] != '\n',
            char_views(done@) + lines_from(s@, start as int) == lines_of(s@),
        decreases n - i,
    {
        if s[i] == '\n' {
            proof {
                lemma_first_of_skip(s@, '\n', start as int, i as int);
            }
            let mut e = i;
            if e > start && s[e - 1] == '\r' {
                e = e - 1;
            }
            let line = copy_range(&s, start, e);
            proof {
                assert(line@ == strip_cr(s@.subrange(start as int, i as int)));
                assert(lines_from(s@, start as int) == seq![line@] + lines_from(s@, i + 1));
                assert(char_views(done@.push(line)) =~= char_views(done@).push(line@));
                assert(char_views(done@).push(line@) + lines_from(s@, i + 1)
                    =~= char_views(done@) + (seq![line@] + lines_from(s@, i + 1)));
            }
            done.push(line);
            start = i + 1;
        }
        i = i + 1;
    }
    if start < n {
        proof {
            lemma_first_of_skip(s@, '\n', start as int, n as int);
        }
        let line = copy_range(&s, start, n);
        proof {
            assert(lines_from(s@, start as int) == seq![line@]);
            assert(char_views(done@.push(line)) =~= char_views(done@).push(line@));
        }
        done.push(line);
    } else {
        assert(char_views(done@) + lines_from(s@, start as int) =~= char_views(done@));
    }
    done
}

/// A comment line: empty, or starting with `#`.
pub open spec fn is_comment(l: Seq<char>) -> bool {
    l.len() == 0 || l[0] == '#'
}

/// `name<TAB>rest`, split at the first tab.
pub open spec fn split_pair(l: Seq<char>) -> Option<(Seq<char>, Seq<char>)> {
    let t = first_of(l, '\t', 0);
    if t >= l.len() {
        None
    } else {
        Some((l.take(t), l.skip(t + 1)))
    }
}

/// `name<TAB>a<TAB>rest`, split at the first two tabs.
pub open spec fn split_triple(l: Seq<char>) -> Option<(Seq<char>, Seq<char>, Seq<char>)> {
    let a = first_of(l, '\t', 0);
    if a >= l.len() {
        None
    } else {
        let b = first_of(l, '\t', a + 1);
        if b >= l.len() {
            None
        } else {
            Some((l.take(a), l.subrange(a + 1, b), l.skip(b + 1)))
        }
    }
}

/// Entries of a two-column table, in line order.
pub open spec fn pair_table(ls: Seq<Seq<char>>) -> Seq<(Seq<char>, Seq<char>)>
    decreases ls.len(),
{
    if ls.len() == 0 {
        seq![]
    } else {
        let rest = pair_table(ls.drop_last());
        if is_comment(ls.last()) {
            rest
        } else {
            match split_pair(ls.last()) {
                Some(e) => rest.push(e),
                None => rest,
            }
        }
    }
}

/// Entries of a three-column table, in line order.
pub open spec fn triple_table(ls: Seq<Seq<char>>) -> Seq<(Seq<char>, Seq<char>, Seq<char>)>
    decreases ls.len(),
{
    if ls.len() == 0 {
        seq![]
    } else {
        let rest = triple_table(ls.drop_last());
        if is_comment(ls.last()) {
            rest
        } else {
            match split_triple(ls.last()) {
                Some(e) => rest.push(e),
                None => rest,
            }
        }
    }
}

/// A stored two-column table as character sequences.
pub open spec fn pair_view(e: Seq<(Vec<char>, String)>) -> Seq<(Seq<char>, Seq<char>)> {
    e.map_values(|p: (Vec<char>, String)| (p.0@, p.1@))
}

/// A stored three-column table as character sequences.
pub open spec fn triple_view(e: Seq<(Vec<char>, String, String)>) -> Seq<(Seq<char>, Seq<char>, Seq<char>)> {
    e.map_values(|p: (Vec<char>, String, String)| (p.0@, p.1@, p.2@))
}

fn tab_index(l: &Vec<char>, i: usize) -> (r: usize)
    requires
        i <= l@.len(),
    ensures
        r == first_of(l@, '\t', i as int),
        i <= r <= l@.len(),
{
    let mut k = i;
    while k < l.len() && l[k] != '\t'
        invariant
            i <= k <= l@.len(),
            first_of(l@, '\t', i as int) == first_of(l@, '\t', k as int),
        decreases l@.len() - k,
    {
        k = k + 1;
    }
    k
}

fn parse_pairs(text: &str) -> (r: Vec<(Vec<char>, String)>)
    ensures
        pair_view(r@) == pair_table(lines_of(text@)),
{
    let ls = lines(text);
    let ghost lv = char_views(ls@);
    let mut r: Vec<(Vec<char>, String)> = Vec::new();
    let mut k: usize = 0;
    while k < ls.len()
        invariant
            k <= ls@.len(),
            lv == char_views(ls@),
            lv == lines_of(text@),
            pair_view(r@) == pair_table(lv.take(k as int)),
        decreases ls@.len() - k,
    {
        let l = &ls[k];
        proof {
            assert(lv.take(k + 1).drop_last() =~= lv.take(k as int));
            assert(lv.take(k + 1).last() == l@);
        }
        if l.len() == 0 || l[0] == '#' {
        } else {
            let t = tab_index(l, 0);
            if t < l.len() {
                let name = copy_range(l, 0, t);
                let rest = string_range(l, t + 1, l.len());
                proof {
                    assert(name@ =~= l@.take(t as int));
                    assert(rest@ =~= l@.skip(t + 1));
                }
                r.push((name, rest));
                proof {
                    assert(pair_view(r@) =~= pair_table(lv.take(k as int)).push((l@.take(t as int), l@.skip(t + 1))));
                }
            }
        }
        k = k + 1;
    }
    assert(lv.take(k as int) =~= lv);
    r
}

fn parse_triples(text: &str) -> (r: Vec<(Vec<char>, String, String)>)
    ensures
        triple_view(r@) == triple_table(lines_of(text@)),
{
    let ls = lines(text);
    let ghost lv = char_views(ls@);
    let mut r: Vec<(Vec<char>, String, String)> = Vec::new();
    let mut k: usize = 0;
    while k < ls.len()
        invariant
            k <= ls@.len(),
            lv == char_views(ls@),
            lv == lines_of(text@),
            triple_view(r@) == triple_table(lv.take(k as int)),
        decreases ls@.len() - k,
    {
        let l = &ls[k];
        proof {
            assert(lv.take(k + 1).drop_last() =~= lv.take(k as int));
            assert(lv.take(k + 1).last() == l@);
        }
        if l.len() == 0 || l[0] == '#' {
        } else {
            let a = tab_index(l, 0);
            if a < l.len() {
                let b = tab_index(l, a + 1);
                if b < l.len() {
                    let name = copy_range(l, 0, a);
                    let mid = string_range(l, a + 1, b);
                    let rest = string_range(l, b + 1, l.len());
                    proof {
                        assert(name@ =~= l@.take(a as int));
                        assert(rest@ =~= l@.skip(b + 1));
                    }
                    r.push((name, mid, rest));
                    proof {
                        assert(triple_view(r@) =~= triple_table(lv.take(k as int)).push(
                            (l@.take(a as int), l@.subrange(a + 1, b as int), l@.skip(b + 1))));
                    }
                }
            }
        }
        k = k + 1;
    }
    assert(lv.take(k as int) =~= lv);
    r
}

/// Number of short names for common cloud services.
pub const ALIAS_COUNT: usize = 17;

/// Short service name `i` and the full cloud icon name it stands for.
pub open spec fn alias_pair(i: int) -> (Seq<char>, Seq<char>) {
    if i == 0 {
        ("ec2"@, "aws/resource-compute-amazon-ec2-instance"@)
    } else if i == 1 {
        ("s3"@, "aws/resource-storage-amazon-simple-storage-service-bucket"@)
    } else if i == 2 {
        ("lambda"@, "aws/resource-compute-aws-lambda-lambda-function"@)
    } else if i == 3 {
        ("dynamodb"@, "aws/resource-database-amazon-dynamodb-table"@)
    } else if i == 4 {
        ("cloudfront"@, "aws/resource-networking-content-delivery-amazon-cloudfront-edge-location"@)
    } else if i == 5 {
        ("route53"@, "aws/resource-networking-content-delivery-amazon-route-53-hosted-zone"@)
    } else if i == 6 {
        ("vpc"@, "aws/resource-networking-content-delivery-amazon-vpc-virtual-private-cloud-vpc"@)
    } else if i == 7 {
        ("sqs"@, "aws/resource-application-integration-amazon-simple-queue-service-queue"@)
    } else if i == 8 {
        ("sns"@, "aws/resource-application-integration-amazon-simple-notification-service-topic"@)
    } else if i == 9 {
        ("iam"@, "aws/service-security-identity-compliance-16-aws-iam-identity-center"@)
    } else if i == 10 {
        ("azure_vm"@, "azure/compute-virtual-machine"@)
    } else if i == 11 {
        ("bigquery"@, "gcp/bigquery-bigquery"@)
    } else if i == 12 {
        ("cloud_run"@, "gcp/cloud-run-cloud-run"@)
    } else if i == 13 {
        ("gce"@, "gcp/compute-engine-compute-engine"@)
    } else if i == 14 {
        ("cloudflare"@, "cf/logo"@)
    } else if i == 15 {
        ("workers"@, "cf/workers"@)
    } else {
        ("r2"@, "cf/r2"@)
    }
}

fn alias(i: usize) -> (r: (&'static str, &'static str))
    requires
        i < ALIAS_COUNT,
    ensures
        (r.0@, r.1@) == alias_pair(i as int),
{
    if i == 0 {
        ("ec2", "aws/resource-compute-amazon-ec2-instance")
    } else if i == 1 {
        ("s3", "aws/resource-storage-amazon-simple-storage-service-bucket")
    } else if i == 2 {
        ("lambda", "aws/resource-compute-aws-lambda-lambda-function")
    } else if i == 3 {
        ("dynamodb", "aws/resource-database-amazon-dynamodb-table")
    } else if i == 4 {
        ("cloudfront", "aws/resource-networking-content-delivery-amazon-cloudfront-edge-location")
    } else if i == 5 {
        ("route53", "aws/resource-networking-content-delivery-amazon-route-53-hosted-zone")
    } else if i == 6 {
        ("vpc", "aws/resource-networking-content-delivery-amazon-vpc-virtual-private-cloud-vpc")
    } else if i == 7 {
        ("sqs", "aws/resource-application-integration-amazon-simple-queue-service-queue")
    } else if i == 8 {
        ("sns", "aws/resource-application-integration-amazon-simple-notification-service-topic")
    } else if i == 9 {
        ("iam", "aws/service-security-identity-compliance-16-aws-iam-identity-center")
    } else if i == 10 {
        ("azure_vm", "azure/compute-virtual-machine")
    } else if i == 11 {
        ("bigquery", "gcp/bigquery-bigquery")
    } else if i == 12 {
        ("cloud_run", "gcp/cloud-run-cloud-run")
    } else if i == 13 {
        ("gce", "gcp/compute-engine-compute-engine")
    } else if i == 14 {
        ("cloudflare", "cf/logo")
    } else if i == 15 {
        ("workers", "cf/workers")
    } else {
        ("r2", "cf/r2")
    }
}

/// The full name for a short service name, searching the aliases from `i`;
/// any other name stands for itself.
pub open spec fn resolve_from(name: Seq<char>, i: int) -> Seq<char>
    decreases ALIAS_COUNT - i,
{
    if i < 0 || i >= ALIAS_COUNT {
        name
    } else if alias_pair(i).0 == name {
        alias_pair(i).1
    } else {
        resolve_from(name, i + 1)
    }
}

/// The name looked up for `name`: its alias target, or `name` itself.
pub open spec fn resolve(name: Seq<char>) -> Seq<char> {
    resolve_from(name, 0)
}

/// The last position below `n` whose name is `name`.
pub open spec fn last_named(names: Seq<Seq<char>>, name: Seq<char>, n: int) -> Option<int>
    decreases n,
{
    if n <= 0 {
        None
    } else if names[n - 1] == name {
        Some(n - 1)
    } else {
        last_named(names, name, n - 1)
    }
}

/// The names of a two-column table, in order.
pub open spec fn pair_names(e: Seq<(Seq<char>, Seq<char>)>) -> Seq<Seq<char>> {
    e.map_values(|p: (Seq<char>, Seq<char>)| p.0)
}

/// The names of a three-column table, in order.
pub open spec fn triple_names(e: Seq<(Seq<char>, Seq<char>, Seq<char>)>) -> Seq<Seq<char>> {
    e.map_values(|p: (Seq<char>, Seq<char>, Seq<char>)| p.0)
}

/// The value of the last entry named `name`.
pub open spec fn pair_lookup(e: Seq<(Seq<char>, Seq<char>)>, name: Seq<char>) -> Option<Seq<char>> {
    match last_named(pair_names(e), name, e.len() as int) {
        Some(i) => Some(e[i].1),
        None => None,
    }
}

/// The two values of the last entry named `name`.
pub open spec fn triple_lookup(e: Seq<(Seq<char>, Seq<char>, Seq<char>)>, name: Seq<char>) -> Option<(Seq<char>, Seq<char>)> {
    match last_named(triple_names(e), name, e.len() as int) {
        Some(i) => Some((e[i].1, e[i].2)),
        None => None,
    }
}

/// An icon as drawn: a filled path on the Material 960-unit grid, a stroke
/// path in a 24-unit view box, or a full-colour SVG fragment (view box and
/// inner content).
#[derive(Debug)]
pub enum Icon {
    Path(String),
    Stroke(String),
    Svg(String, String),
}

/// What an icon holds, as character sequences.
pub enum IconSpec {
    Path(Seq<char>),
    Stroke(Seq<char>),
    Svg(Seq<char>, Seq<char>),
}

impl View for Icon {
    type V = IconSpec;

    open spec fn view(&self) -> IconSpec {
        match self {
            Icon::Path(d) => IconSpec::Path(d@),
            Icon::Stroke(d) => IconSpec::Stroke(d@),
            Icon::Svg(vb, inner) => IconSpec::Svg(vb@, inner@),
        }
    }
}

/// The three icon tables.
pub struct IconTables {
    material: Vec<(Vec<char>, String)>,
    cloud: Vec<(Vec<char>, String, String)>,
    tabler: Vec<(Vec<char>, String)>,
}

/// The entries of the three tables, in line order.
pub struct TablesView {
    pub material: Seq<(Seq<char>, Seq<char>)>,
    pub cloud: Seq<(Seq<char>, Seq<char>, Seq<char>)>,
    pub tabler: Seq<(Seq<char>, Seq<char>)>,
}

impl View for IconTables {
    type V = TablesView;

    closed spec fn view(&self) -> TablesView {
        TablesView {
            material: pair_view(self.material@),
            cloud: triple_view(self.cloud@),
            tabler: pair_view(self.tabler@),
        }
    }
}

impl IconTables {
    /// Reads the three tables from their text.
    pub fn parse(material: &str, cloud: &str, tabler: &str) -> (t: Self)
        ensures
            t@.material == pair_table(lines_of(material@)),
            t@.cloud == triple_table(lines_of(cloud@)),
            t@.tabler == pair_table(lines_of(tabler@)),
    {
        IconTables { material: parse_pairs(material), cloud: parse_triples(cloud), tabler: parse_pairs(tabler) }
    }
}

fn same_chars(a: &Vec<char>, b: &Vec<char>) -> (r: bool)
    ensures
        r == (a@ == b@),
{
    if a.len() != b.len() {
        return false;
    }
    let mut i: usize = 0;
    while i < a.len()
        invariant
            i <= a@.len(),
            a@.len() == b@.len(),
            forall|j: int| 0 <= j < i ==> a@[j] == b@[j],
        decreases a@.len() - i,
    {
        if a[i] != b[i] {
            return false;
        }
        i = i + 1;
    }
    assert(a@ =~= b@);
    true
}

fn find_pair(e: &Vec<(Vec<char>, String)>, name: &Vec<char>) -> (r: Option<usize>)
    ensures
        match last_named(pair_names(pair_view(e@)), name@, e@.len() as int) {
            Some(i) => r matches Some(j) && j as int == i,
            None => r is None,
        },
        r matches Some(i) ==> i < e@.len(),
{
    let ghost names = pair_names(pair_view(e@));
    let mut n = e.len();
    while n > 0
        invariant
            n <= e@.len(),
            names == pair_names(pair_view(e@)),
            last_named(names, name@, e@.len() as int) == last_named(names, name@, n as int),
        decreases n,
    {
        assert(names[n - 1] == e@[n - 1].0@);
        if same_chars(&e[n - 1].0, name) {
            return Some(n - 1);
        }
        n = n - 1;
    }
    None
}

fn find_triple(e: &Vec<(Vec<char>, String, String)>, name: &Vec<char>) -> (r: Option<usize>)
    ensures
        match last_named(triple_names(triple_view(e@)), name@, e@.len() as int) {
            Some(i) => r matches Some(j) && j as int == i,
            None => r is None,
        },
        r matches Some(i) ==> i < e@.len(),
{
    let ghost names = triple_names(triple_view(e@));
    let mut n = e.len();
    while n > 0
        invariant
            n <= e@.len(),
            names == triple_names(triple_view(e@)),
            last_named(names, name@, e@.len() as int) == last_named(names, name@, n as int),
        decreases n,
    {
        assert(names[n - 1] == e@[n - 1].0@);
        if same_chars(&e[n - 1].0, name) {
            return Some(n - 1);
        }
        n = n - 1;
    }
    None
}

fn resolve_exec(name: &str) -> (r: Vec<char>)
    ensures
        r@ == resolve(name@),
{
    let n = chars_of(name);
    let mut i: usize = 0;
    while i < ALIAS_COUNT
        invariant
            i <= ALIAS_COUNT,
            n@ == name@,
            resolve(name@) == resolve_from(name@, i as int),
        decreases ALIAS_COUNT - i,
    {
        let (short, full) = alias(i);
        let s = chars_of(short);
        if same_chars(&s, &n) {
            return chars_of(full);
        }
        i = i + 1;
    }
    n
}

/// Whether a name asks for a Tabler icon explicitly (`ti/<name>`).
pub open spec fn has_ti(n: Seq<char>) -> bool {
    n.len() >= 3 && n[0] == 't' && n[1] == 'i' && n[2] == '/'
}

/// The icon drawn for `name`: after resolving an alias, a cloud icon of
/// that name; else for `ti/<n>` the Tabler icon `n`; else the Material
/// icon, and failing that the Tabler icon, of that name.
pub open spec fn icon_spec(t: TablesView, name: Seq<char>) -> Option<IconSpec> {
    let n = resolve(name);
    match triple_lookup(t.cloud, n) {
        Some(v) => Some(IconSpec::Svg(v.0, v.1)),
        None => if has_ti(n) {
            match pair_lookup(t.tabler, n.skip(3)) {
                Some(d) => Some(IconSpec::Stroke(d)),
                None => None,
            }
        } else {
            match pair_lookup(t.material, n) {
                Some(d) => Some(IconSpec::Path(d)),
                None => match pair_lookup(t.tabler, n) {
                    Some(d) => Some(IconSpec::Stroke(d)),
                    None => None,
                },
            }
        },
    }
}

/// Looks an icon up by name; `None` when no table has it.
pub fn get(tables: &IconTables, name: &str) -> (r: Option<Icon>)
    ensures
        match r {
            Some(i) => icon_spec(tables@, name@) == Some(i@),
            None => icon_spec(tables@, name@) is None,
        },
{
    let n = resolve_exec(name);
    let ghost t = tables@;
    match find_triple(&tables.cloud, &n) {
        Some(i) => {
            let e = &tables.cloud[i];
            assert(t.cloud[i as int] == (e.0@, e.1@, e.2@));
            return Some(Icon::Svg(e.1.clone(), e.2.clone()));
        },
        None => {},
    }
    if n.len() >= 3 && n[0] == 't' && n[1] == 'i' && n[2] == '/' {
        let rest = copy_range(&n, 3, n.len());
        assert(rest@ =~= n@.skip(3));
        return match find_pair(&tables.tabler, &rest) {
            Some(i) => {
                assert(t.tabler[i as int] == (tables.tabler@[i as int].0@, tables.tabler@[i as int].1@));
                Some(Icon::Stroke(tables.tabler[i].1.clone()))
            },
            None => None,
        };
    }
    match find_pair(&tables.material, &n) {
        Some(i) => {
            assert(t.material[i as int] == (tables.material@[i as int].0@, tables.material@[i as int].1@));
            Some(Icon::Path(tables.material[i].1.clone()))
        },
        None => match find_pair(&tables.tabler, &n) {
            Some(i) => {
                assert(t.tabler[i as int] == (tables.tabler@[i as int].0@, tables.tabler@[i as int].1@));
                Some(Icon::Stroke(tables.tabler[i].1.clone()))
            },
            None => None,
        },
    }
}

/// Code-point lexicographic order of two texts from position `i` on: at
/// the first difference the smaller character comes first, and a prefix
/// comes before any longer text.
pub open spec fn lex_le_from(a: Seq<char>, b: Seq<char>, i: int) -> bool
    decreases a.len() - i,
{
    if i < 0 || i >= a.len() {
        true
    } else if i >= b.len() {
        false
    } else if (a[i] as u32) < (b[i] as u32) {
        true
    } else if a[i] == b[i] {
        lex_le_from(a, b, i + 1)
    } else {
        false
    }
}

/// `a` sorts at or before `b` in code-point order, the order of Rust's
/// `String` comparison (UTF-8 keeps code-point order).
pub open spec fn lex_le(a: Seq<char>, b: Seq<char>) -> bool {
    lex_le_from(a, b, 0)
}

/// Lexicographic order is total.
pub proof fn lemma_lex_total(a: Seq<char>, b: Seq<char>, i: int)
    requires
        0 <= i,
    ensures
        lex_le_from(a, b, i) || lex_le_from(b, a, i),
    decreases a.len() - i,
{
    if i < a.len() && i < b.len() {
        if a[i] == b[i] {
            lemma_lex_total(a, b, i + 1);
        } else {
            vstd::utf8::char_u32_cast(a[i], a[i] as u32);
            vstd::utf8::char_u32_cast(b[i], b[i] as u32);
        }
    }
}

/// Lexicographic order is transitive.
pub proof fn lemma_lex_trans(a: Seq<char>, b: Seq<char>, c: Seq<char>, i: int)
    requires
        0 <= i,
        lex_le_from(a, b, i),
        lex_le_from(b, c, i),
    ensures
        lex_le_from(a, c, i),
    decreases a.len() - i,
{
    if i < a.len() && i < b.len() && i < c.len() && a[i] == b[i] && b[i] == c[i] {
        lemma_lex_trans(a, b, c, i + 1);
    }
}

/// Lexicographic order is antisymmetric: texts that sort both ways are equal.
pub proof fn lemma_lex_antisym(a: Seq<char>, b: Seq<char>, i: int)
    requires
        0 <= i <= a.len(),
        i <= b.len(),
        a.take(i) == b.take(i),
        lex_le_from(a, b, i),
        lex_le_from(b, a, i),
    ensures
        a == b,
    decreases a.len() - i,
{
    if i < a.len() && i < b.len() {
        assert(a[i] == b[i]);
        assert(a.take(i + 1) =~= a.take(i).push(a[i]));
        assert(b.take(i + 1) =~= b.take(i).push(b[i]));
        lemma_lex_antisym(a, b, i + 1);
    } else {
        assert(a.len() == i && b.len() == i);
        assert(a =~= a.take(i));
        assert(b =~= b.take(i));
    }
}

fn lex_le_exec(a: &Vec<char>, b: &Vec<char>) -> (r: bool)
    ensures
        r == lex_le(a@, b@),
{
    let mut i: usize = 0;
    while i < a.len() && i < b.len() && a[i] == b[i]
        invariant
            i <= a@.len(),
            i <= b@.len(),
            lex_le(a@, b@) == lex_le_from(a@, b@, i as int),
        decreases a@.len() - i,
    {
        i = i + 1;
    }
    if i == a.len() {
        true
    } else if i == b.len() {
        false
    } else {
        (a[i] as u32) < (b[i] as u32)
    }
}

/// Texts in non-decreasing lexicographic order.
pub open spec fn lex_sorted(s: Seq<Seq<char>>) -> bool {
    forall|i: int, j: int| 0 <= i < j < s.len() ==> lex_le(#[trigger] s[i], #[trigger] s[j])
}

/// Views of a list of strings.
pub open spec fn str_views(v: Seq<String>) -> Seq<Seq<char>> {
    v.map_values(|x: String| x@)
}

fn sort_names(v: &Vec<Vec<char>>) -> (r: Vec<Vec<char>>)
    ensures
        lex_sorted(char_views(r@)),
        char_views(r@).to_multiset() == char_views(v@).to_multiset(),
{
    let ghost vv = char_views(v@);
    let mut out: Vec<Vec<char>> = Vec::new();
    let mut k: usize = 0;
    assert(vv.take(0) =~= Seq::<Seq<char>>::empty());
    assert(char_views(out@) =~= Seq::<Seq<char>>::empty());
    while k < v.len()
        invariant
            k <= v@.len(),
            vv == char_views(v@),
            lex_sorted(char_views(out@)),
            char_views(out@).to_multiset() == vv.take(k as int).to_multiset(),
        decreases v@.len() - k,
    {
        let x = copy_range(&v[k], 0, v[k].len());
        assert(x@ =~= vv[k as int]);
        let ghost ov = char_views(out@);
        let mut p = out.len();
        while p > 0 && !lex_le_exec(&out[p - 1], &x)
            invariant
                p <= out@.len(),
                ov == char_views(out@),
                forall|q: int| p <= q < ov.len() ==> !lex_le(#[trigger] ov[q], x@),
            decreases p,
        {
            p = p - 1;
        }
        out.insert(p, x);
        proof {
            let nv = ov.insert(p as int, x@);
            assert(char_views(out@) =~= nv);
            assert forall|i: int, j: int| 0 <= i < j < nv.len() implies lex_le(#[trigger] nv[i], #[trigger] nv[j]) by {
                if j < p {
                    assert(nv[i] == ov[i] && nv[j] == ov[j]);
                } else if j == p {
                    assert(nv[j] == x@);
                    assert(lex_le(ov[p - 1], x@));
                    if i < p - 1 {
                        assert(lex_le(ov[i], ov[p - 1]));
                        lemma_lex_trans(ov[i], ov[p - 1], x@, 0);
                    }
                } else if i == p {
                    assert(nv[i] == x@ && nv[j] == ov[j - 1]);
                    assert(!lex_le(ov[j - 1], x@));
                    lemma_lex_total(ov[j - 1], x@, 0);
                } else if i < p {
                    assert(nv[i] == ov[i] && nv[j] == ov[j - 1]);
                } else {
                    assert(nv[i] == ov[i - 1] && nv[j] == ov[j - 1]);
                }
            }
            vstd::seq_lib::to_multiset_insert(ov, p as int, x@);
            assert(vv.take(k + 1) =~= vv.take(k as int).push(x@));
            vstd::seq_lib::to_multiset_build(vv.take(k as int), x@);
        }
        k = k + 1;
    }
    assert(vv.take(k as int) =~= vv);
    out
}

/// No later entry carries the same name as entry `i`.
pub open spec fn is_last_of(names: Seq<Seq<char>>, i: int) -> bool {
    forall|j: int| i < j < names.len() ==> names[j] != names[i]
}

/// Among the first `n` names, each name once, where it last occurs.
pub open spec fn distinct_upto(names: Seq<Seq<char>>, n: int) -> Seq<Seq<char>>
    decreases n,
{
    if n <= 0 {
        seq![]
    } else if is_last_of(names, n - 1) {
        distinct_upto(names, n - 1).push(names[n - 1])
    } else {
        distinct_upto(names, n - 1)
    }
}

/// Each name of a table once: the names a lookup can find.
pub open spec fn distinct(names: Seq<Seq<char>>) -> Seq<Seq<char>> {
    distinct_upto(names, names.len() as int)
}

/// Names with the `ti/` prefix that selects the Tabler table.
pub open spec fn ti_prefixed(names: Seq<Seq<char>>) -> Seq<Seq<char>> {
    names.map_values(|k: Seq<char>| seq!['t', 'i', '/'] + k)
}

/// Every name that can be looked up: the Material names, the cloud names
/// and the Tabler names under `ti/`.
pub open spec fn all_names(t: TablesView) -> Seq<Seq<char>> {
    distinct(pair_names(t.material)) + distinct(triple_names(t.cloud)) + ti_prefixed(distinct(pair_names(t.tabler)))
}

fn distinct_exec(names: &Vec<Vec<char>>, prefix: bool, out: &mut Vec<Vec<char>>)
    ensures
        char_views(final(out)@) == char_views(old(out)@) + (if prefix {
            ti_prefixed(distinct(char_views(names@)))
        } else {
            distinct(char_views(names@))
        }),
{
    let ghost nv = char_views(names@);
    let ghost base = char_views(out@);
    let n = names.len();
    let mut i: usize = 0;
    while i < n
        invariant
            n == names@.len(),
            nv == char_views(names@),
            i <= n,
            char_views(out@) == base + (if prefix { ti_prefixed(distinct_upto(nv, i as int)) } else { distinct_upto(nv, i as int) }),
        decreases n - i,
    {
        let mut last = true;
        let mut j = i + 1;
        while j < n && last
            invariant
                n == names@.len(),
                nv == char_views(names@),
                i < n,
                i + 1 <= j <= n,
                last ==> forall|k: int| i < k < j ==> nv[k] != nv[i as int],
                !last ==> !is_last_of(nv, i as int),
            decreases n - j,
        {
            if same_chars(&names[j], &names[i]) {
                assert(nv[j as int] == nv[i as int]);
                last = false;
            }
            j = j + 1;
        }
        if last {
            let mut name: Vec<char> = Vec::new();
            if prefix {
                name.push('t');
                name.push('i');
                name.push('/');
            }
            let mut k: usize = 0;
            while k < names[i].len()
                invariant
                    n == names@.len(),
                    i < n,
                    k <= names@[i as int]@.len(),
                    name@ == (if prefix { seq!['t', 'i', '/'] } else { Seq::<char>::empty() }) + names@[i as int]@.take(k as int),
                decreases names@[i as int]@.len() - k,
            {
                name.push(names[i][k]);
                proof {
                    assert(names@[i as int]@.take(k + 1) =~= names@[i as int]@.take(k as int).push(names@[i as int]@[k as int]));
                    assert(name@ =~= (if prefix { seq!['t', 'i', '/'] } else { Seq::<char>::empty() }) + names@[i as int]@.take(k + 1));
                }
                k = k + 1;
            }
            proof {
                assert(names@[i as int]@.take(k as int) =~= nv[i as int]);
            }
            let ghost before = out@;
            out.push(name);
            proof {
                assert(char_views(out@) =~= char_views(before).push(name@));
                assert(distinct_upto(nv, i + 1) == distinct_upto(nv, i as int).push(nv[i as int]));
                if prefix {
                    assert(name@ =~= seq!['t', 'i', '/'] + nv[i as int]);
                    assert(ti_prefixed(distinct_upto(nv, i + 1)) =~= ti_prefixed(distinct_upto(nv, i as int)).push(name@));
                } else {
                    assert(name@ =~= nv[i as int]);
                }
            }
            assert(char_views(out@) =~= base + (if prefix { ti_prefixed(distinct_upto(nv, i + 1)) } else { distinct_upto(nv, i + 1) }));
        } else {
            assert(distinct_upto(nv, i + 1) == distinct_upto(nv, i as int));
        }
        i = i + 1;
    }
}

fn pair_keys(e: &Vec<(Vec<char>, String)>) -> (r: Vec<Vec<char>>)
    ensures
        char_views(r@) == pair_names(pair_view(e@)),
{
    let mut r: Vec<Vec<char>> = Vec::new();
    let mut i: usize = 0;
    while i < e.len()
        invariant
            i <= e@.len(),
            char_views(r@) == pair_names(pair_view(e@)).take(i as int),
        decreases e@.len() - i,
    {
        let k = copy_range(&e[i].0, 0, e[i].0.len());
        let ghost before = r@;
        r.push(k);
        proof {
            assert(k@ =~= e@[i as int].0@);
            assert(char_views(r@) =~= char_views(before).push(k@));
            assert(char_views(before).push(k@) =~= pair_names(pair_view(e@)).take(i + 1));
        }
        i = i + 1;
    }
    assert(pair_names(pair_view(e@)).take(i as int) =~= pair_names(pair_view(e@)));
    r
}

fn triple_keys(e: &Vec<(Vec<char>, String, String)>) -> (r: Vec<Vec<char>>)
    ensures
        char_views(r@) == triple_names(triple_view(e@)),
{
    let mut r: Vec<Vec<char>> = Vec::new();
    let mut i: usize = 0;
    while i < e.len()
        invariant
            i <= e@.len(),
            char_views(r@) == triple_names(triple_view(e@)).take(i as int),
        decreases e@.len() - i,
    {
        let k = copy_range(&e[i].0, 0, e[i].0.len());
        let ghost before = r@;
        r.push(k);
        proof {
            assert(k@ =~= e@[i as int].0@);
            assert(char_views(r@) =~= char_views(before).push(k@));
            assert(char_views(before).push(k@) =~= triple_names(triple_view(e@)).take(i + 1));
        }
        i = i + 1;
    }
    assert(triple_names(triple_view(e@)).take(i as int) =~= triple_names(triple_view(e@)));
    r
}

/// Every icon name, sorted: Material and cloud names as they are, Tabler
/// names under `ti/`.
pub fn all(tables: &IconTables) -> (r: Vec<String>)
    ensures
        lex_sorted(str_views(r@)),
        str_views(r@).to_multiset() == all_names(tables@).to_multiset(),
{
    let mut keys: Vec<Vec<char>> = Vec::new();
    assert(char_views(keys@) =~= Seq::<Seq<char>>::empty());
    distinct_exec(&pair_keys(&tables.material), false, &mut keys);
    distinct_exec(&triple_keys(&tables.cloud), false, &mut keys);
    distinct_exec(&pair_keys(&tables.tabler), true, &mut keys);
    assert(char_views(keys@) =~= all_names(tables@));
    let sorted = sort_names(&keys);
    let mut r: Vec<String> = Vec::new();
    let mut i: usize = 0;
    while i < sorted.len()
        invariant
            i <= sorted@.len(),
            str_views(r@) == char_views(sorted@).take(i as int),
        decreases sorted@.len() - i,
    {
        let s = string_range(&sorted[i], 0, sorted[i].len());
        let ghost before = r@;
        r.push(s);
        proof {
            assert(s@ =~= sorted@[i as int]@);
            assert(str_views(r@) =~= str_views(before).push(s@));
            assert(str_views(r@) =~= char_views(sorted@).take(i + 1));
        }
        i = i + 1;
    }
    assert(char_views(sorted@).take(i as int) =~= char_views(sorted@));
    r
}

/// A sorted listing of a collection of names is unique: two sorted
/// sequences holding the same names the same number of times are equal.
/// So `all` has exactly one possible result.
pub proof fn lemma_sorted_listing_unique(a: Seq<Seq<char>>, b: Seq<Seq<char>>)
    requires
        lex_sorted(a),
        lex_sorted(b),
        a.to_multiset() == b.to_multiset(),
    ensures
        a == b,
    decreases a.len(),
{
    a.to_multiset_ensures();
    b.to_multiset_ensures();
    if a.len() == 0 {
        assert(b.len() == 0);
        assert(a =~= b);
    } else {
        assert(b.len() == a.len());
        let x = a[0];
        let y = b[0];
        assert(a.contains(x));
        assert(a.to_multiset().count(x) > 0);
        assert(b.contains(x));
        let j = choose|j: int| 0 <= j < b.len() && b[j] == x;
        if j > 0 {
            assert(lex_le(b[0], b[j]));
        } else {
            lemma_lex_total(y, x, 0);
        }
        assert(b.contains(y));
        assert(b.to_multiset().count(y) > 0);
        assert(a.contains(y));
        let i = choose|i: int| 0 <= i < a.len() && a[i] == y;
        if i > 0 {
            assert(lex_le(a[0], a[i]));
        } else {
            lemma_lex_total(x, y, 0);
        }
        assert(lex_le(x, y) && lex_le(y, x));
        assert(x.take(0) =~= y.take(0));
        lemma_lex_antisym(x, y, 0);
        assert(a.remove(0).to_multiset() == a.to_multiset().remove(x));
        assert(b.remove(0).to_multiset() == b.to_multiset().remove(y));
        assert(a.remove(0) =~= a.drop_first());
        assert(b.remove(0) =~= b.drop_first());
        assert(lex_sorted(a.drop_first())) by {
            assert forall|p: int, q: int| 0 <= p < q < a.drop_first().len()
                implies lex_le(#[trigger] a.drop_first()[p], #[trigger] a.drop_first()[q]) by {
                assert(a.drop_first()[p] == a[p + 1] && a.drop_first()[q] == a[q + 1]);
            }
        }
        assert(lex_sorted(b.drop_first())) by {
            assert forall|p: int, q: int| 0 <= p < q < b.drop_first().len()
                implies lex_le(#[trigger] b.drop_first()[p], #[trigger] b.drop_first()[q]) by {
                assert(b.drop_first()[p] == b[p + 1] && b.drop_first()[q] == b[q + 1]);
            }
        }
        lemma_sorted_listing_unique(a.drop_first(), b.drop_first());
        assert(a =~= b) by {
            assert forall|k: int| 0 <= k < a.len() implies a[k] == b[k] by {
                if k > 0 {
                    assert(a[k] == a.drop_first()[k - 1]);
                    assert(b[k] == b.drop_first()[k - 1]);
                }
            }
        }
    }
}

proof fn lemma_resolve_first(name: Seq<char>, i: int, k: int)
    requires
        0 <= k <= i < ALIAS_COUNT,
        alias_pair(i).0 == name,
        forall|j: int| k <= j < i ==> alias_pair(j).0 != name,
    ensures
        resolve_from(name, k) == alias_pair(i).1,
    decreases i - k,
{
    if k < i {
        lemma_resolve_first(name, i, k + 1);
    }
}

proof fn lemma_resolve_none(name: Seq<char>, k: int)
    requires
        0 <= k <= ALIAS_COUNT,
        forall|j: int| k <= j < ALIAS_COUNT ==> alias_pair(j).0 != name,
    ensures
        resolve_from(name, k) == name,
    decreases ALIAS_COUNT - k,
{
    if k < ALIAS_COUNT {
        lemma_resolve_none(name, k + 1);
    }
}

/// Short names hold no `/`; every full cloud name does.
proof fn lemma_alias_shapes()
    ensures
        forall|j: int| 0 <= j < ALIAS_COUNT ==> !(#[trigger] alias_pair(j).0).contains('/'),
        forall|j: int| 0 <= j < ALIAS_COUNT ==> (#[trigger] alias_pair(j).1).contains('/'),
{
    reveal_strlit("ec2");
    reveal_strlit("aws/resource-compute-amazon-ec2-instance");
    reveal_strlit("s3");
    reveal_strlit("aws/resource-storage-amazon-simple-storage-service-bucket");
    reveal_strlit("lambda");
    reveal_strlit("aws/resource-compute-aws-lambda-lambda-function");
    reveal_strlit("dynamodb");
    reveal_strlit("aws/resource-database-amazon-dynamodb-table");
    reveal_strlit("cloudfront");
    reveal_strlit("aws/resource-networking-content-delivery-amazon-cloudfront-edge-location");
    reveal_strlit("route53");
    reveal_strlit("aws/resource-networking-content-delivery-amazon-route-53-hosted-zone");
    reveal_strlit("vpc");
    reveal_strlit("aws/resource-networking-content-delivery-amazon-vpc-virtual-private-cloud-vpc");
    reveal_strlit("sqs");
    reveal_strlit("aws/resource-application-integration-amazon-simple-queue-service-queue");
    reveal_strlit("sns");
    reveal_strlit("aws/resource-application-integration-amazon-simple-notification-service-topic");
    reveal_strlit("iam");
    reveal_strlit("aws/service-security-identity-compliance-16-aws-iam-identity-center");
    reveal_strlit("azure_vm");
    reveal_strlit("azure/compute-virtual-machine");
    reveal_strlit("bigquery");
    reveal_strlit("gcp/bigquery-bigquery");
    reveal_strlit("cloud_run");
    reveal_strlit("gcp/cloud-run-cloud-run");
    reveal_strlit("gce");
    reveal_strlit("gcp/compute-engine-compute-engine");
    reveal_strlit("cloudflare");
    reveal_strlit("cf/logo");
    reveal_strlit("workers");
    reveal_strlit("cf/workers");
    reveal_strlit("r2");
    reveal_strlit("cf/r2");
    assert forall|j: int| 0 <= j < ALIAS_COUNT implies !(#[trigger] alias_pair(j).0).contains('/') by {
    }
    assert forall|j: int| 0 <= j < ALIAS_COUNT implies (#[trigger] alias_pair(j).1).contains('/') by {
        let f = alias_pair(j).1;
        if j <= 9 { assert(f[3] == '/'); } else if j == 10 { assert(f[5] == '/'); }
        else if j <= 13 { assert(f[3] == '/'); } else { assert(f[2] == '/'); }
    }
}

/// Short names are all different.
proof fn lemma_alias_distinct()
    ensures
        forall|a: int, b: int| 0 <= a < b < ALIAS_COUNT ==> alias_pair(a).0 != alias_pair(b).0,
{
    reveal_strlit("ec2");
    reveal_strlit("aws/resource-compute-amazon-ec2-instance");
    reveal_strlit("s3");
    reveal_strlit("aws/resource-storage-amazon-simple-storage-service-bucket");
    reveal_strlit("lambda");
    reveal_strlit("aws/resource-compute-aws-lambda-lambda-function");
    reveal_strlit("dynamodb");
    reveal_strlit("aws/resource-database-amazon-dynamodb-table");
    reveal_strlit("cloudfront");
    reveal_strlit("aws/resource-networking-content-delivery-amazon-cloudfront-edge-location");
    reveal_strlit("route53");
    reveal_strlit("aws/resource-networking-content-delivery-amazon-route-53-hosted-zone");
    reveal_strlit("vpc");
    reveal_strlit("aws/resource-networking-content-delivery-amazon-vpc-virtual-private-cloud-vpc");
    reveal_strlit("sqs");
    reveal_strlit("aws/resource-application-integration-amazon-simple-queue-service-queue");
    reveal_strlit("sns");
    reveal_strlit("aws/resource-application-integration-amazon-simple-notification-service-topic");
    reveal_strlit("iam");
    reveal_strlit("aws/service-security-identity-compliance-16-aws-iam-identity-center");
    reveal_strlit("azure_vm");
    reveal_strlit("azure/compute-virtual-machine");
    reveal_strlit("bigquery");
    reveal_strlit("gcp/bigquery-bigquery");
    reveal_strlit("cloud_run");
    reveal_strlit("gcp/cloud-run-cloud-run");
    reveal_strlit("gce");
    reveal_strlit("gcp/compute-engine-compute-engine");
    reveal_strlit("cloudflare");
    reveal_strlit("cf/logo");
    reveal_strlit("workers");
    reveal_strlit("cf/workers");
    reveal_strlit("r2");
    reveal_strlit("cf/r2");
    assert forall|a: int, b: int| 0 <= a < b < ALIAS_COUNT implies alias_pair(a).0 != alias_pair(b).0 by {
        let x = alias_pair(a).0;
        let y = alias_pair(b).0;
        assert(x.len() != y.len() || x[0] != y[0] || x[1] != y[1] || x[6] != y[6]);
    }
}

/// A short service name shows the same icon as the full name it stands for.
pub proof fn lemma_alias_resolves_as_target(t: TablesView, i: int)
    requires
        0 <= i < ALIAS_COUNT,
    ensures
        resolve(alias_pair(i).0) == alias_pair(i).1,
        icon_spec(t, alias_pair(i).0) == icon_spec(t, alias_pair(i).1),
{
    lemma_alias_distinct();
    lemma_resolve_first(alias_pair(i).0, i, 0);
    lemma_alias_shapes();
    let full = alias_pair(i).1;
    assert forall|j: int| 0 <= j < ALIAS_COUNT implies alias_pair(j).0 != full by {
        assert(full.contains('/'));
        assert(!alias_pair(j).0.contains('/'));
    }
    lemma_resolve_none(full, 0);
}

/// `n` is no short service name.
pub open spec fn not_short(n: Seq<char>) -> bool {
    forall|j: int| 0 <= j < ALIAS_COUNT ==> alias_pair(j).0 != n
}

proof fn lemma_distinct_listed(names: Seq<Seq<char>>, n: int, x: Seq<char>)
    requires
        0 <= n <= names.len(),
        distinct_upto(names, n).contains(x),
    ensures
        names.contains(x),
    decreases n,
{
    if n > 0 {
        if is_last_of(names, n - 1) && x == names[n - 1] {
        } else {
            if is_last_of(names, n - 1) {
                let d = distinct_upto(names, n - 1);
                let e = d.push(names[n - 1]);
                let k = choose|k: int| 0 <= k < e.len() && #[trigger] e[k] == x;
                assert(d[k] == x);
            }
            lemma_distinct_listed(names, n - 1, x);
        }
    }
}

proof fn lemma_named_found(names: Seq<Seq<char>>, x: Seq<char>, n: int)
    requires
        0 <= n <= names.len(),
        exists|k: int| 0 <= k < n && names[k] == x,
    ensures
        last_named(names, x, n) is Some,
    decreases n,
{
    if names[n - 1] != x {
        let k = choose|k: int| 0 <= k < n && names[k] == x;
        lemma_named_found(names, x, n - 1);
    }
}

/// Every listed name shows an icon: a Material or cloud name that is not a
/// short service name (and, for Material, does not start with `ti/`), and
/// every Tabler name under `ti/`.
pub proof fn lemma_listed_names_resolve(t: TablesView)
    ensures
        forall|n: Seq<char>| #[trigger] distinct(pair_names(t.material)).contains(n) && !has_ti(n) && not_short(n)
            ==> icon_spec(t, n) is Some,
        forall|n: Seq<char>| #[trigger] distinct(triple_names(t.cloud)).contains(n) && not_short(n)
            ==> icon_spec(t, n) is Some,
        forall|k: Seq<char>| #[trigger] distinct(pair_names(t.tabler)).contains(k)
            ==> icon_spec(t, seq!['t', 'i', '/'] + k) is Some,
{
    lemma_alias_shapes();
    assert forall|n: Seq<char>| #[trigger] distinct(pair_names(t.material)).contains(n) && !has_ti(n) && not_short(n)
        implies icon_spec(t, n) is Some by {
        let names = pair_names(t.material);
        lemma_resolve_none(n, 0);
        lemma_distinct_listed(names, names.len() as int, n);
        lemma_named_found(names, n, names.len() as int);
    }
    assert forall|n: Seq<char>| #[trigger] distinct(triple_names(t.cloud)).contains(n) && not_short(n)
        implies icon_spec(t, n) is Some by {
        let names = triple_names(t.cloud);
        lemma_resolve_none(n, 0);
        lemma_distinct_listed(names, names.len() as int, n);
        lemma_named_found(names, n, names.len() as int);
    }
    assert forall|k: Seq<char>| #[trigger] distinct(pair_names(t.tabler)).contains(k)
        implies icon_spec(t, seq!['t', 'i', '/'] + k) is Some by {
        let n = seq!['t', 'i', '/'] + k;
        assert(n[2] == '/');
        assert(n.contains('/'));
        assert forall|j: int| 0 <= j < ALIAS_COUNT implies alias_pair(j).0 != n by {
            assert(!alias_pair(j).0.contains('/'));
        }
        lemma_resolve_none(n, 0);
        assert(n.skip(3) =~= k);
        let names = pair_names(t.tabler);
        lemma_distinct_listed(names, names.len() as int, k);
        lemma_named_found(names, k, names.len() as int);
    }
}

/// Every name `all` lists shows an icon, provided no short service name is
/// itself a table key and no Material name starts with `ti/` (a Material
/// `ti/x` would be looked up in the Tabler table instead).
pub proof fn lemma_all_names_resolve(t: TablesView)
    requires
        forall|n: Seq<char>| #[trigger] all_names(t).contains(n) ==> not_short(n),
        forall|n: Seq<char>| #[trigger] distinct(pair_names(t.material)).contains(n) ==> !has_ti(n),
    ensures
        forall|n: Seq<char>| #[trigger] all_names(t).contains(n) ==> icon_spec(t, n) is Some,
{
    lemma_listed_names_resolve(t);
    let a = distinct(pair_names(t.material));
    let b = distinct(triple_names(t.cloud));
    let c = ti_prefixed(distinct(pair_names(t.tabler)));
    assert forall|n: Seq<char>| #[trigger] all_names(t).contains(n) implies icon_spec(t, n) is Some by {
        let all = all_names(t);
        let i = choose|i: int| 0 <= i < all.len() && all[i] == n;
        if i < a.len() {
            assert(a[i] == n);
            assert(a.contains(n));
        } else if i < a.len() + b.len() {
            assert(b[i - a.len()] == n);
            assert(b.contains(n));
        } else {
            let k = distinct(pair_names(t.tabler))[i - a.len() - b.len()];
            assert(c[i - a.len() - b.len()] == n);
            assert(n == seq!['t', 'i', '/'] + k);
            assert(distinct(pair_names(t.tabler)).contains(k));
        }
    }
}

/// No two short service names stand for the same icon: the alias targets
/// are pairwise different, so each short name reaches its own service.
pub proof fn lemma_alias_targets_distinct()
    ensures
        forall|a: int, b: int| 0 <= a < b < ALIAS_COUNT ==> alias_pair(a).1 != alias_pair(b).1,
        forall|a: int, b: int| 0 <= a < b < ALIAS_COUNT ==> resolve(alias_pair(a).0) != resolve(alias_pair(b).0),
{
    reveal_strlit("aws/resource-compute-amazon-ec2-instance");
    reveal_strlit("aws/resource-storage-amazon-simple-storage-service-bucket");
    reveal_strlit("aws/resource-compute-aws-lambda-lambda-function");
    reveal_strlit("aws/resource-database-amazon-dynamodb-table");
    reveal_strlit("aws/resource-networking-content-delivery-amazon-cloudfront-edge-location");
    reveal_strlit("aws/resource-networking-content-delivery-amazon-route-53-hosted-zone");
    reveal_strlit("aws/resource-networking-content-delivery-amazon-vpc-virtual-private-cloud-vpc");
    reveal_strlit("aws/resource-application-integration-amazon-simple-queue-service-queue");
    reveal_strlit("aws/resource-application-integration-amazon-simple-notification-service-topic");
    reveal_strlit("aws/service-security-identity-compliance-16-aws-iam-identity-center");
    reveal_strlit("azure/compute-virtual-machine");
    reveal_strlit("gcp/bigquery-bigquery");
    reveal_strlit("gcp/cloud-run-cloud-run");
    reveal_strlit("gcp/compute-engine-compute-engine");
    reveal_strlit("cf/logo");
    reveal_strlit("cf/workers");
    reveal_strlit("cf/r2");
    assert forall|a: int, b: int| 0 <= a < b < ALIAS_COUNT implies alias_pair(a).1 != alias_pair(b).1 by {
        let x = alias_pair(a).1;
        let y = alias_pair(b).1;
        assert(x.len() != y.len() || x[13] != y[13]);
    }
    assert forall|a: int, b: int| 0 <= a < b < ALIAS_COUNT implies resolve(alias_pair(a).0) != resolve(alias_pair(b).0) by {
        lemma_alias_resolves_as_target(TablesView { material: seq![], cloud: seq![], tabler: seq![] }, a);
        lemma_alias_resolves_as_target(TablesView { material: seq![], cloud: seq![], tabler: seq![] }, b);
    }
}

} // verus!
