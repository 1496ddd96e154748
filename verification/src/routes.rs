//! Host names and the table that sends a host to its upstreams in turn.

use vstd::hash_map::StringHashMap;
use vstd::prelude::*;
use vstd::slice::slice_subrange;

use crate::text::{
    chars_of, first_index, join3, last_index, lowered, parse_number, pieces, text_of, trimmed,
};

verus! {

broadcast use vstd::hash_map::group_hash_map_axioms;

/// A server that requests can be sent to.
#[derive(Debug, Clone, PartialEq, Eq)]
pub struct Upstream {
    pub addr: String,
}

/// A host and the servers that answer for it.
#[derive(Debug, Clone, PartialEq, Eq)]
pub struct Route {
    pub host: String,
    pub upstreams: Vec<Upstream>,
}

/// Why a text is not a host name.
#[derive(Debug, PartialEq, Eq)]
pub enum RouteError {
    EmptyHost,
    InvalidHost(String),
}

/// What a table answers for a host.
#[derive(Debug, Clone, PartialEq, Eq)]
pub enum RouteSelection {
    Unknown,
    Unavailable,
    Available(Upstream),
}

// ---------------------------------------------------------------------------------------------
// Models
// ---------------------------------------------------------------------------------------------

/// A route by its contents: the host and the addresses, in order.
#[verifier::ext_equal]
pub struct RouteModel {
    pub host: Seq<char>,
    pub upstreams: Seq<Seq<char>>,
}

/// A host error by its contents.
#[verifier::ext_equal]
pub enum RouteErrorModel {
    EmptyHost,
    InvalidHost(Seq<char>),
}

/// A selection by its contents.
#[verifier::ext_equal]
pub enum SelectionModel {
    Unknown,
    Unavailable,
    Available(Seq<char>),
}

/// What the table holds for one host: the addresses, and how many selections were made.
#[verifier::ext_equal]
pub struct RouteEntry {
    pub upstreams: Seq<Seq<char>>,
    pub next: usize,
}

/// The addresses of `v`, in order.
pub open spec fn addresses(v: Seq<Upstream>) -> Seq<Seq<char>> {
    Seq::new(v.len(), |i: int| v[i].addr@)
}

/// The contents of the routes `v`, in order.
pub open spec fn route_models(v: Seq<Route>) -> Seq<RouteModel> {
    Seq::new(v.len(), |i: int| v[i]@)
}

impl View for Upstream {
    type V = Seq<char>;

    open spec fn view(&self) -> Seq<char> {
        self.addr@
    }
}

impl View for Route {
    type V = RouteModel;

    open spec fn view(&self) -> RouteModel {
        RouteModel { host: self.host@, upstreams: addresses(self.upstreams@) }
    }
}

impl View for RouteError {
    type V = RouteErrorModel;

    open spec fn view(&self) -> RouteErrorModel {
        match self {
            RouteError::EmptyHost => RouteErrorModel::EmptyHost,
            RouteError::InvalidHost(host) => RouteErrorModel::InvalidHost(host@),
        }
    }
}

impl View for RouteSelection {
    type V = SelectionModel;

    open spec fn view(&self) -> SelectionModel {
        match self {
            RouteSelection::Unknown => SelectionModel::Unknown,
            RouteSelection::Unavailable => SelectionModel::Unavailable,
            RouteSelection::Available(upstream) => SelectionModel::Available(upstream@),
        }
    }
}

impl RouteErrorModel {
    /// The sentence that tells the error.
    pub open spec fn message(self) -> Seq<char> {
        match self {
            RouteErrorModel::EmptyHost => "host is required"@,
            RouteErrorModel::InvalidHost(host) => "invalid host `"@ + host + "`"@,
        }
    }
}

impl RouteError {
    /// The sentence that tells the error.
    pub fn to_string(&self) -> (r: String)
        ensures
            r@ == self@.message(),
    {
        match self {
            RouteError::EmptyHost => "host is required".to_owned(),
            RouteError::InvalidHost(host) => join3("invalid host `", host.as_str(), "`"),
        }
    }
}

// ---------------------------------------------------------------------------------------------
// Host names
// ---------------------------------------------------------------------------------------------

/// Letters, digits and the hyphen of ASCII.
pub open spec fn is_label_char(c: char) -> bool {
    ||| 'a' <= c <= 'z'
    ||| 'A' <= c <= 'Z'
    ||| '0' <= c <= '9'
    ||| c == '-'
}

/// Whether `label` may stand between the dots of a host name: not empty, of label characters,
/// and with no hyphen at either end.
pub open spec fn valid_label(label: Seq<char>) -> bool {
    &&& label.len() > 0
    &&& label.first() != '-'
    &&& label.last() != '-'
    &&& forall|i: int| 0 <= i < label.len() ==> is_label_char(#[trigger] label[i])
}

/// Whether `host` consists of valid labels with dots between them.
pub open spec fn valid_host(host: Seq<char>) -> bool {
    let labels = crate::text::split(host, '.');
    forall|i: int| 0 <= i < labels.len() ==> valid_label(#[trigger] labels[i])
}

/// `host` without a port. What stands between the brackets where it starts with a bracket that
/// is closed; what stands before the colon where it has one colon, with a port number behind it;
/// else all of it.
pub open spec fn without_port(host: Seq<char>) -> Seq<char> {
    let inner = host.skip(1);
    if host.len() > 0 && host[0] == '[' && inner.contains(']') {
        inner.take(inner.index_of_first(']')->0)
    } else {
        match host.index_of_last(':') {
            Some(i) if !host.take(i).contains(':') && crate::text::number_up_to(
                host.skip(i + 1),
                u16::MAX as nat,
            ) is Some => host.take(i),
            _ => host,
        }
    }
}

/// The form in which hosts are compared: no white space around, no port, small letters. The
/// second case tells why the text has no such form.
pub open spec fn normalized(host: Seq<char>) -> Result<Seq<char>, RouteErrorModel> {
    let h = crate::text::lower(without_port(crate::text::trim(host)));
    if h.len() == 0 {
        Err(RouteErrorModel::EmptyHost)
    } else if !valid_host(h) {
        Err(RouteErrorModel::InvalidHost(h))
    } else {
        Ok(h)
    }
}

/// Puts `host` into the form in which hosts are compared.
pub fn normalize_host(host: &str) -> (r: Result<String, RouteError>)
    ensures
        match r {
            Ok(h) => normalized(host@) == Ok::<Seq<char>, RouteErrorModel>(h@),
            Err(e) => normalized(host@) == Err::<Seq<char>, RouteErrorModel>(e@),
        },
{
    let all = chars_of(host);
    let h = lowered(strip_host_port(trimmed(all.as_slice())));
    if h.len() == 0 {
        return Err(RouteError::EmptyHost);
    }
    if !is_valid_host(h.as_slice()) {
        return Err(RouteError::InvalidHost(text_of(h.as_slice())));
    }
    Ok(text_of(h.as_slice()))
}

fn strip_host_port(host: &[char]) -> (r: &[char])
    ensures
        r@ == without_port(host@),
{
    let n = host.len();
    if n > 0 && host[0] == '[' {
        let inner = slice_subrange(host, 1, n);
        assert(inner@ =~= host@.skip(1));
        proof {
            inner@.index_of_first_ensures(']');
        }
        if let Some(end) = first_index(inner, ']') {
            let r = slice_subrange(inner, 0, end);
            assert(r@ =~= inner@.take(end as int));
            return r;
        }
    }
    if let Some(i) = last_index(host, ':') {
        let name = slice_subrange(host, 0, i);
        let port = slice_subrange(host, i + 1, n);
        assert(name@ =~= host@.take(i as int));
        assert(port@ =~= host@.skip(i + 1));
        proof {
            name@.index_of_first_ensures(':');
        }
        if first_index(name, ':').is_none() && parse_number(port, u16::MAX as u64).is_some() {
            return name;
        }
    }
    host
}

fn is_valid_host(host: &[char]) -> (r: bool)
    ensures
        r == valid_host(host@),
{
    let labels = pieces(host, '.');
    let ghost parts = crate::text::split(host@, '.');
    assert(labels@.len() == parts.len());
    for i in 0..labels.len()
        invariant
            parts == crate::text::split(host@, '.'),
            parts == labels@.map_values(|v: Vec<char>| v@),
            forall|j: int| 0 <= j < i ==> valid_label(#[trigger] parts[j]),
    {
        assert(parts[i as int] == labels@[i as int]@);
        if !is_valid_label(labels[i].as_slice()) {
            return false;
        }
    }
    true
}

fn is_valid_label(label: &[char]) -> (r: bool)
    ensures
        r == valid_label(label@),
{
    let n = label.len();
    if n == 0 || label[0] == '-' || label[n - 1] == '-' {
        return false;
    }
    for i in 0..n
        invariant
            n == label@.len(),
            forall|j: int| 0 <= j < i ==> is_label_char(#[trigger] label@[j]),
    {
        let c = label[i];
        if !(('a' <= c && c <= 'z') || ('A' <= c && c <= 'Z') || ('0' <= c && c <= '9') || c
            == '-') {
            assert(!is_label_char(label@[i as int]));
            return false;
        }
    }
    true
}

// ---------------------------------------------------------------------------------------------
// The route table
// ---------------------------------------------------------------------------------------------

/// The upstreams of one host, and the turn of the next selection.
#[derive(Debug, Clone)]
struct RouteState {
    upstreams: Vec<Upstream>,
    next: usize,
}

/// The routes in force. Each host has a slot in `states`, found through `slots`.
pub struct RouteTable {
    slots: StringHashMap<usize>,
    states: Vec<RouteState>,
}

/// What a table holds: an entry for each host that it knows.
pub type TableModel = Map<Seq<char>, RouteEntry>;

spec fn entry_of(state: RouteState) -> RouteEntry {
    RouteEntry { upstreams: addresses(state.upstreams@), next: state.next }
}

/// Each slot lies in `states`, no two hosts share one, and there are finitely many.
spec fn slots_fit(slots: Map<Seq<char>, usize>, states: Seq<RouteState>) -> bool {
    &&& slots.dom().finite()
    &&& forall|h: Seq<char>| #[trigger]
        slots.contains_key(h) ==> slots[h] < states.len()
    &&& forall|g: Seq<char>, h: Seq<char>| #[trigger]
        slots.contains_key(g) && #[trigger] slots.contains_key(h) && g != h ==> slots[g] != slots[h]
}

spec fn table_model(slots: Map<Seq<char>, usize>, states: Seq<RouteState>) -> TableModel {
    slots.map_values(|i: usize| entry_of(states[i as int]))
}

impl View for RouteTable {
    type V = TableModel;

    closed spec fn view(&self) -> TableModel {
        table_model(self.slots@, self.states@)
    }
}

/// The table that `routes` make, read in order: a host that comes again takes the later
/// upstreams. The second case is the error of the first route whose host is not valid.
pub open spec fn table_of(routes: Seq<RouteModel>) -> Result<TableModel, RouteErrorModel>
    decreases routes.len(),
{
    if routes.len() == 0 {
        Ok(Map::empty())
    } else {
        match table_of(routes.drop_last()) {
            Err(e) => Err(e),
            Ok(table) => match normalized(routes.last().host) {
                Err(e) => Err(e),
                Ok(host) => Ok(
                    table.insert(host, RouteEntry { upstreams: routes.last().upstreams, next: 0 }),
                ),
            },
        }
    }
}

/// The answer of `table` for the text `host`, and the table after it.
pub open spec fn selection(table: TableModel, host: Seq<char>) -> (SelectionModel, TableModel) {
    match normalized(host) {
        Err(_) => (SelectionModel::Unknown, table),
        Ok(h) => if !table.contains_key(h) {
            (SelectionModel::Unknown, table)
        } else if table[h].upstreams.len() == 0 {
            (SelectionModel::Unavailable, table)
        } else {
            let entry = table[h];
            let turn = entry.next as int % entry.upstreams.len() as int;
            let next = if entry.next == usize::MAX {
                0
            } else {
                (entry.next + 1) as usize
            };
            (
                SelectionModel::Available(entry.upstreams[turn]),
                table.insert(h, RouteEntry { upstreams: entry.upstreams, next }),
            )
        },
    }
}

proof fn lemma_table_of_prefix(routes: Seq<RouteModel>, k: int)
    requires
        0 <= k <= routes.len(),
        table_of(routes.take(k)) is Err,
    ensures
        table_of(routes) == table_of(routes.take(k)),
    decreases routes.len() - k,
{
    if k == routes.len() {
        assert(routes.take(k) =~= routes);
    } else {
        assert(routes.take(k + 1).drop_last() =~= routes.take(k));
        lemma_table_of_prefix(routes, k + 1);
    }
}

impl Default for RouteTable {
    /// A table that knows no host.
    fn default() -> (r: RouteTable)
        ensures
            r@ == Map::<Seq<char>, RouteEntry>::empty(),
    {
        let r = RouteTable { slots: StringHashMap::new(), states: Vec::new() };
        assert(r@ =~= Map::<Seq<char>, RouteEntry>::empty());
        r
    }
}

impl RouteTable {
    #[verifier::type_invariant]
    spec fn wf(&self) -> bool {
        slots_fit(self.slots@, self.states@)
    }

    /// Puts `routes` in force in place of what the table held. If a host is not valid, the
    /// table stays as it is.
    pub fn replace(&mut self, routes: Vec<Route>) -> (r: Result<(), RouteError>)
        ensures
            match r {
                Ok(_) => table_of(route_models(routes@)) == Ok::<TableModel, RouteErrorModel>(
                    final(self)@,
                ),
                Err(e) => {
                    &&& table_of(route_models(routes@)) == Err::<TableModel, RouteErrorModel>(e@)
                    &&& final(self)@ == old(self)@
                },
            },
    {
        let ghost models = route_models(routes@);
        let mut slots: StringHashMap<usize> = StringHashMap::new();
        let mut states: Vec<RouteState> = Vec::new();
        assert(table_model(slots@, states@) =~= Map::<Seq<char>, RouteEntry>::empty());
        for route in it: routes
            invariant
                models == route_models(it.seq()),
                slots_fit(slots@, states@),
                table_of(models.take(it.index() as int)) == Ok::<TableModel, RouteErrorModel>(
                    table_model(slots@, states@),
                ),
                self@ == old(self)@,
        {
            let ghost k = it.index() as int;
            let ghost before = table_model(slots@, states@);
            proof {
                assert(models.take(k + 1).drop_last() =~= models.take(k));
                assert(models.take(k + 1).last() == models[k]);
            }
            let host = match normalize_host(route.host.as_str()) {
                Ok(host) => host,
                Err(e) => {
                    proof {
                        lemma_table_of_prefix(models, k + 1);
                    }
                    return Err(e);
                },
            };
            let ghost h = host@;
            let state = RouteState { upstreams: route.upstreams, next: 0 };
            let ghost entry = entry_of(state);
            let known = match slots.get(host.as_str()) {
                Some(i) => Some(*i),
                None => None,
            };
            match known {
                Some(i) => {
                    states.set(i, state);
                },
                None => {
                    let i = states.len();
                    states.push(state);
                    slots.insert(host, i);
                },
            }
            assert(table_model(slots@, states@) =~= before.insert(h, entry));
        }
        assert(models.take(models.len() as int) =~= models);
        *self = RouteTable { slots, states };
        Ok(())
    }

    /// The upstream whose turn it is for `host`.
    pub fn select(&mut self, host: &str) -> (r: RouteSelection)
        ensures
            (r@, final(self)@) == selection(old(self)@, host@),
    {
        proof {
            use_type_invariant(&*self);
        }
        let name = match normalize_host(host) {
            Ok(name) => name,
            Err(_) => return RouteSelection::Unknown,
        };
        let slot: usize = match self.slots.get(name.as_str()) {
            Some(slot) => *slot,
            None => return RouteSelection::Unknown,
        };
        let ghost before = self@;
        assert(before[name@] == entry_of(self.states@[slot as int]));
        let n = self.states[slot].upstreams.len();
        if n == 0 {
            return RouteSelection::Unavailable;
        }
        let next = self.states[slot].next;
        let addr = self.states[slot].upstreams[next % n].addr.clone();
        self.states[slot].next = next.wrapping_add(1);
        assert(self@ =~= selection(before, host@).1);
        RouteSelection::Available(Upstream { addr })
    }

    /// How many hosts the table knows.
    pub fn len(&self) -> (n: usize)
        ensures
            self@.dom().finite(),
            n == self@.dom().len(),
    {
        proof {
            use_type_invariant(self);
        }
        assert(self@.dom() =~= self.slots@.dom());
        self.slots.len()
    }
}

// ---------------------------------------------------------------------------------------------
// Laws of host names
// ---------------------------------------------------------------------------------------------

proof fn lemma_valid_host_chars(host: Seq<char>)
    requires
        valid_host(host),
    ensures
        forall|i: int|
            0 <= i < host.len() ==> is_label_char(#[trigger] host[i]) || host[i] == '.',
    decreases host.len(),
{
    let labels = crate::text::split(host, '.');
    host.index_of_first_ensures('.');
    match host.index_of_first('.') {
        None => {
            assert(labels[0] == host);
        },
        Some(k) => {
            let rest = host.skip(k + 1);
            let more = crate::text::split(rest, '.');
            assert(labels == seq![host.take(k)] + more);
            assert(labels[0] == host.take(k));
            assert forall|i: int| 0 <= i < more.len() implies valid_label(#[trigger] more[i]) by {
                assert(labels[i + 1] == more[i]);
            }
            lemma_valid_host_chars(rest);
            assert forall|i: int| 0 <= i < host.len() implies is_label_char(#[trigger] host[i])
                || host[i] == '.' by {
                if i < k {
                    assert(host.take(k)[i] == host[i]);
                } else if i > k {
                    assert(rest[i - k - 1] == host[i]);
                }
            }
        },
    }
}

/// Two hosts with a dot between them are a valid host exactly where both are valid.
pub proof fn valid_hosts_join(a: Seq<char>, b: Seq<char>)
    ensures
        valid_host(a + seq!['.'] + b) <==> valid_host(a) && valid_host(b),
{
    let s = a + seq!['.'] + b;
    crate::text::split_joins(a, '.', b);
    let all = crate::text::split(s, '.');
    let left = crate::text::split(a, '.');
    let right = crate::text::split(b, '.');
    assert forall|i: int| 0 <= i < left.len() implies all[i] == #[trigger] left[i] by {}
    assert forall|i: int| 0 <= i < right.len() implies all[left.len() + i] == #[trigger] right[i] by {}
    if valid_host(s) {
        assert forall|i: int| 0 <= i < left.len() implies valid_label(#[trigger] left[i]) by {
            assert(valid_label(all[i]));
        }
        assert forall|i: int| 0 <= i < right.len() implies valid_label(#[trigger] right[i]) by {
            assert(valid_label(all[left.len() + i]));
        }
    }
    if valid_host(a) && valid_host(b) {
        assert forall|i: int| 0 <= i < all.len() implies valid_label(#[trigger] all[i]) by {
            if i < left.len() {
                assert(all[i] == left[i]);
            } else {
                assert(all[i] == right[i - left.len()]);
            }
        }
    }
}

/// A host without dots is valid exactly where it is a valid label; so the empty one is not.
pub proof fn host_of_one_label(host: Seq<char>)
    ensures
        !host.contains('.') ==> (valid_host(host) <==> valid_label(host)),
        host.len() == 0 ==> !valid_host(host),
{
    if !host.contains('.') {
        crate::text::split_of_one_piece(host, '.');
        assert(crate::text::split(host, '.')[0] == host);
    }
}

/// A normalized host has no capital, no white space, no port, no scheme, no path and no wildcard.
pub proof fn normalized_host_is_plain(host: Seq<char>, h: Seq<char>)
    requires
        normalized(host) == Ok::<Seq<char>, RouteErrorModel>(h),
    ensures
        h.len() > 0,
        valid_host(h),
        crate::text::lower(h) == h,
        forall|i: int|
            0 <= i < h.len() ==> !crate::text::is_white(#[trigger] h[i]) && !('A' <= h[i] <= 'Z')
                && h[i] != ':' && h[i] != '/' && h[i] != '\\' && h[i] != '*' && h[i] != '[',
{
    lemma_valid_host_chars(h);
    let raw = without_port(crate::text::trim(host));
    assert forall|i: int| 0 <= i < h.len() implies crate::text::lower_char(#[trigger] h[i]) == h[i]
        && !('A' <= h[i] <= 'Z') by {
        crate::text::lemma_lower_keeps(raw[i]);
    }
    assert(crate::text::lower(h) =~= h);
}

/// Normalizing a normalized host changes nothing.
pub proof fn normalizing_is_final(host: Seq<char>, h: Seq<char>)
    requires
        normalized(host) == Ok::<Seq<char>, RouteErrorModel>(h),
    ensures
        normalized(h) == Ok::<Seq<char>, RouteErrorModel>(h),
{
    normalized_host_is_plain(host, h);
    assert(crate::text::trim(h) == h);
    h.index_of_last_ensures(':');
    assert(without_port(h) == h);
}

proof fn lemma_without_port_lower(s: Seq<char>)
    ensures
        without_port(crate::text::lower(s)) == crate::text::lower(without_port(s)),
{
    let l = crate::text::lower(s);
    assert forall|i: int| 0 <= i < s.len() implies ((#[trigger] l[i] == ':') == (s[i] == ':')) && ((
    l[i] == ']') == (s[i] == ']')) && ((l[i] == '[') == (s[i] == '[')) by {
        crate::text::lemma_lower_keeps(s[i]);
    }
    let inner = s.skip(1);
    let linner = l.skip(1);
    inner.index_of_first_ensures(']');
    linner.index_of_first_ensures(']');
    s.index_of_last_ensures(':');
    l.index_of_last_ensures(':');
    if s.len() > 0 && s[0] == '[' {
        assert(linner =~= crate::text::lower(inner));
        assert forall|i: int| 0 <= i < inner.len() implies ((#[trigger] inner[i] == ']') == (
        linner[i] == ']')) by {
            assert(l[i + 1] == linner[i]);
        }
        if inner.contains(']') {
            let e = inner.index_of_first(']')->0;
            assert(linner[e] == ']');
            assert(linner.contains(']'));
            assert(linner.index_of_first(']') == Some(e));
            assert(linner.take(e) =~= crate::text::lower(inner.take(e)));
            return;
        }
        assert(!linner.contains(']')) by {
            if linner.contains(']') {
                let e = linner.index_of_first(']')->0;
                assert(inner[e] == ']');
                assert(inner.contains(']'));
            }
        }
    }
    match s.index_of_last(':') {
        None => {
            if l.contains(':') {
                let i = l.index_of_last(':')->0;
                assert(s[i] == ':');
                assert(s.contains(':'));
            }
        },
        Some(i) => {
            assert(l[i] == ':');
            assert(l.contains(':'));
            assert(l.index_of_last(':') == Some(i));
            assert(l.take(i) =~= crate::text::lower(s.take(i)));
            assert(l.skip(i + 1) =~= crate::text::lower(s.skip(i + 1)));
            crate::text::lemma_number_lower(s.skip(i + 1), u16::MAX as nat);
            if s.take(i).contains(':') {
                let k = choose|k: int| 0 <= k < i && s.take(i)[k] == ':';
                assert(l[k] == ':' && l.take(i)[k] == ':');
            }
            if l.take(i).contains(':') {
                let k = choose|k: int| 0 <= k < i && l.take(i)[k] == ':';
                assert(l[k] == ':' && s.take(i)[k] == ':');
            }
        },
    }
}

/// Hosts that differ only in ASCII case normalize alike.
pub proof fn normalizing_ignores_case(a: Seq<char>, b: Seq<char>)
    requires
        crate::text::lower(a) == crate::text::lower(b),
    ensures
        normalized(a) == normalized(b),
{
    lemma_normalized_lower(a);
    lemma_normalized_lower(b);
}

proof fn lemma_normalized_lower(s: Seq<char>)
    ensures
        normalized(crate::text::lower(s)) == normalized(s),
{
    let t = crate::text::trim(s);
    crate::text::lemma_trim_lower(s);
    lemma_without_port_lower(t);
    let w = without_port(t);
    assert(crate::text::lower(crate::text::lower(w)) =~= crate::text::lower(w)) by {
        assert forall|i: int| 0 <= i < w.len() implies crate::text::lower_char(
            crate::text::lower_char(#[trigger] w[i]),
        ) == crate::text::lower_char(w[i]) by {
            crate::text::lemma_lower_keeps(w[i]);
        }
    }
}

/// White space around a host makes no difference.
pub proof fn normalizing_ignores_outer_space(host: Seq<char>)
    ensures
        normalized(crate::text::trim(host)) == normalized(host),
{
    crate::text::trim_is_final(host);
}

/// A port behind a host makes no difference.
pub proof fn normalizing_ignores_port(h: Seq<char>, port: Seq<char>)
    requires
        normalized(h) == Ok::<Seq<char>, RouteErrorModel>(h),
        crate::text::number_up_to(port, u16::MAX as nat) is Some,
    ensures
        normalized(h + seq![':'] + port) == Ok::<Seq<char>, RouteErrorModel>(h),
{
    normalized_host_is_plain(h, h);
    crate::text::lemma_number_chars(port);
    let s = h + seq![':'] + port;
    assert(s.first() == h[0]);
    assert(s.last() == port[port.len() - 1]);
    assert(crate::text::trim(s) == s);
    s.index_of_last_ensures(':');
    assert(s[h.len() as int] == ':');
    assert(s.contains(':'));
    assert forall|j: int| h.len() < j < s.len() implies s[j] != ':' by {
        assert(s[j] == port[j - h.len() - 1]);
    }
    assert(s.index_of_last(':') == Some(h.len() as int));
    assert(s.take(h.len() as int) =~= h);
    assert(s.skip(h.len() as int + 1) =~= port);
}

// ---------------------------------------------------------------------------------------------
// Laws of the table
// ---------------------------------------------------------------------------------------------

/// Routes are accepted exactly when every host among them is valid.
pub proof fn replace_accepts_valid_hosts(routes: Seq<RouteModel>)
    ensures
        table_of(routes) is Ok <==> forall|i: int|
            0 <= i < routes.len() ==> normalized((#[trigger] routes[i]).host) is Ok,
    decreases routes.len(),
{
    if routes.len() > 0 {
        let init = routes.drop_last();
        replace_accepts_valid_hosts(init);
        assert(forall|i: int| 0 <= i < init.len() ==> #[trigger] init[i] == routes[i]);
        if table_of(routes) is Ok {
            assert forall|i: int| 0 <= i < routes.len() implies normalized(
                (#[trigger] routes[i]).host,
            ) is Ok by {
                if i < init.len() {
                    assert(init[i] == routes[i]);
                }
            }
        }
        if forall|i: int| 0 <= i < routes.len() ==> normalized((#[trigger] routes[i]).host) is Ok {
            assert forall|i: int| 0 <= i < init.len() implies normalized(
                (#[trigger] init[i]).host,
            ) is Ok by {
                assert(init[i] == routes[i]);
            }
            assert(normalized(routes[routes.len() - 1].host) is Ok);
        }
    }
}

/// Whether route `i` is the last of `routes` for the host `h`.
pub open spec fn last_for(routes: Seq<RouteModel>, i: int, h: Seq<char>) -> bool {
    &&& 0 <= i < routes.len()
    &&& normalized(routes[i].host) == Ok::<Seq<char>, RouteErrorModel>(h)
    &&& forall|j: int|
        i < j < routes.len() ==> normalized((#[trigger] routes[j]).host) != Ok::<
            Seq<char>,
            RouteErrorModel,
        >(h)
}

/// A new table knows the hosts of its routes and no others; each host has the upstreams of the
/// last route for it, and starts with the first of them.
pub proof fn replace_keeps_last_route(routes: Seq<RouteModel>, table: TableModel, h: Seq<char>)
    requires
        table_of(routes) == Ok::<TableModel, RouteErrorModel>(table),
    ensures
        table.contains_key(h) <==> exists|i: int| #[trigger] last_for(routes, i, h),
        forall|i: int| #[trigger]
            last_for(routes, i, h) ==> table[h] == (RouteEntry {
                upstreams: routes[i].upstreams,
                next: 0,
            }),
    decreases routes.len(),
{
    if routes.len() > 0 {
        let init = routes.drop_last();
        let n = routes.len() - 1;
        let t = table_of(init)->Ok_0;
        let g = normalized(routes.last().host)->Ok_0;
        replace_keeps_last_route(init, t, h);
        if g == h {
            assert(last_for(routes, n, h));
            assert forall|i: int| #[trigger] last_for(routes, i, h) implies i == n by {
                if i < n {
                    assert(normalized(routes[n].host) == Ok::<Seq<char>, RouteErrorModel>(h));
                }
            }
        } else {
            assert forall|i: int| last_for(init, i, h) == #[trigger] last_for(routes, i, h) by {
                if last_for(init, i, h) {
                    assert forall|j: int| i < j < routes.len() implies normalized(
                        (#[trigger] routes[j]).host,
                    ) != Ok::<Seq<char>, RouteErrorModel>(h) by {
                        if j < n {
                            assert(init[j] == routes[j]);
                        }
                    }
                }
                if last_for(routes, i, h) {
                    assert(i < n);
                    assert forall|j: int| i < j < init.len() implies normalized(
                        (#[trigger] init[j]).host,
                    ) != Ok::<Seq<char>, RouteErrorModel>(h) by {
                        assert(init[j] == routes[j]);
                    }
                }
            }
            if t.contains_key(h) {
                let i = choose|i: int| #[trigger] last_for(init, i, h);
                assert(last_for(routes, i, h));
            }
            if exists|i: int| #[trigger] last_for(routes, i, h) {
                let i = choose|i: int| #[trigger] last_for(routes, i, h);
                assert(last_for(init, i, h));
            }
            assert forall|i: int| #[trigger] last_for(routes, i, h) implies table[h] == (
            RouteEntry { upstreams: routes[i].upstreams, next: 0 }) by {
                assert(last_for(init, i, h));
                assert(init[i] == routes[i]);
            }
        }
    }
}

/// The table after `n` selections for the text `host`.
pub open spec fn after_selections(table: TableModel, host: Seq<char>, n: nat) -> TableModel
    decreases n,
{
    if n == 0 {
        table
    } else {
        selection(after_selections(table, host, (n - 1) as nat), host).1
    }
}

/// Selecting changes neither the hosts that a table knows, nor their upstreams, nor the turn of
/// any other host.
pub proof fn selecting_keeps_routes(table: TableModel, host: Seq<char>, g: Seq<char>)
    ensures
        selection(table, host).1.dom() == table.dom(),
        table.contains_key(g) ==> selection(table, host).1[g].upstreams == table[g].upstreams,
        table.contains_key(g) && normalized(host) != Ok::<Seq<char>, RouteErrorModel>(g)
            ==> selection(table, host).1[g] == table[g],
{
    assert(selection(table, host).1.dom() =~= table.dom());
}

/// Each of `n` selections for a host counts its turn up by one; the count starts again at zero
/// behind the greatest number.
pub proof fn selections_are_counted(table: TableModel, host: Seq<char>, h: Seq<char>, n: nat)
    requires
        normalized(host) == Ok::<Seq<char>, RouteErrorModel>(h),
        table.contains_key(h),
        table[h].upstreams.len() > 0,
    ensures
        after_selections(table, host, n).contains_key(h),
        after_selections(table, host, n)[h].upstreams == table[h].upstreams,
        after_selections(table, host, n)[h].next == (table[h].next + n) % (usize::MAX + 1),
    decreases n,
{
    let all = usize::MAX + 1;
    if n == 0 {
        vstd::arithmetic::div_mod::lemma_small_mod(table[h].next as nat, all as nat);
    } else {
        selections_are_counted(table, host, h, (n - 1) as nat);
        vstd::arithmetic::div_mod::lemma_add_mod_noop(table[h].next + n - 1, 1, all);
        vstd::arithmetic::div_mod::lemma_small_mod(1, all as nat);
        let next = (table[h].next + n - 1) % all;
        if next == usize::MAX {
            vstd::arithmetic::div_mod::lemma_mod_self_0(all);
        } else {
            vstd::arithmetic::div_mod::lemma_small_mod((next + 1) as nat, all as nat);
        }
    }
}

/// Whether the count of turns can go up by `n` without its round through the upstreams being
/// broken: it does not pass the greatest number, or the upstreams come out even there.
pub open spec fn round_lasts(entry: RouteEntry, n: nat) -> bool {
    ||| entry.next + n <= usize::MAX
    ||| (usize::MAX + 1) % entry.upstreams.len() as int == 0
}

/// Selections for one host take its upstreams in order, again and again, from the one whose turn
/// it is.
pub proof fn selections_go_round(table: TableModel, host: Seq<char>, h: Seq<char>, n: nat)
    requires
        normalized(host) == Ok::<Seq<char>, RouteErrorModel>(h),
        table.contains_key(h),
        table[h].upstreams.len() > 0,
        round_lasts(table[h], n),
    ensures
        selection(after_selections(table, host, n), host).0 == SelectionModel::Available(
            table[h].upstreams[(table[h].next + n) % table[h].upstreams.len() as int],
        ),
{
    selections_are_counted(table, host, h, n);
    let all = usize::MAX + 1;
    let len = table[h].upstreams.len() as int;
    let sum = table[h].next + n;
    if sum < all {
        vstd::arithmetic::div_mod::lemma_small_mod(sum as nat, all as nat);
    } else {
        vstd::arithmetic::div_mod::lemma_fundamental_div_mod(all, len);
        assert(all / len > 0) by (nonlinear_arith)
            requires
                all == len * (all / len),
                all > 0,
                len > 0,
        ;
        vstd::arithmetic::div_mod::lemma_mod_mod(sum, len, all / len);
    }
}

proof fn lemma_one_turn_each(next: int, len: int, j: int) -> (turn: int)
    requires
        0 <= next,
        0 <= j < len,
    ensures
        0 <= turn < len,
        (next + turn) % len == j,
        forall|t: int| 0 <= t < len && #[trigger] ((next + t) % len) == j ==> t == turn,
{
    let base = next / len;
    let r = next % len;
    let turn = if j >= r {
        j - r
    } else {
        j + len - r
    };
    vstd::arithmetic::div_mod::lemma_fundamental_div_mod(next, len);
    assert(len * base == base * len) by (nonlinear_arith);
    assert forall|t: int| 0 <= t < len implies #[trigger] ((next + t) % len) == if r + t < len {
        r + t
    } else {
        r + t - len
    } by {
        if r + t < len {
            vstd::arithmetic::div_mod::lemma_fundamental_div_mod_converse(
                next + t,
                len,
                base,
                r + t,
            );
        } else {
            assert((base + 1) * len == base * len + len) by (nonlinear_arith);
            vstd::arithmetic::div_mod::lemma_fundamental_div_mod_converse(
                next + t,
                len,
                base + 1,
                r + t - len,
            );
        }
    }
    assert((next + turn) % len == j);
    turn
}

/// As many selections in a row as a host has upstreams reach each upstream, and reach it once
/// where no address stands twice among them.
pub proof fn selections_are_fair(
    table: TableModel,
    host: Seq<char>,
    h: Seq<char>,
    j: int,
) -> (turn: nat)
    requires
        normalized(host) == Ok::<Seq<char>, RouteErrorModel>(h),
        table.contains_key(h),
        0 <= j < table[h].upstreams.len(),
        round_lasts(table[h], (table[h].upstreams.len() - 1) as nat),
    ensures
        turn < table[h].upstreams.len(),
        selection(after_selections(table, host, turn), host).0 == SelectionModel::Available(
            table[h].upstreams[j],
        ),
        table[h].upstreams.no_duplicates() ==> forall|t: nat|
            t < table[h].upstreams.len() && #[trigger] selection(
                after_selections(table, host, t),
                host,
            ).0 == SelectionModel::Available(table[h].upstreams[j]) ==> t == turn,
{
    let len = table[h].upstreams.len() as int;
    let next = table[h].next as int;
    let turn = lemma_one_turn_each(next, len, j) as nat;
    selections_go_round(table, host, h, turn);
    if table[h].upstreams.no_duplicates() {
        assert forall|t: nat|
            t < len && #[trigger] selection(after_selections(table, host, t), host).0
                == SelectionModel::Available(table[h].upstreams[j]) implies t == turn by {
            selections_go_round(table, host, h, t);
            let k = (next + t) % len;
            assert(table[h].upstreams[k] == table[h].upstreams[j]);
        }
    }
    turn
}

// ---------------------------------------------------------------------------------------------
// Laws of host syntax
// ---------------------------------------------------------------------------------------------

/// A label is valid exactly where it is not empty, starts and ends with no hyphen, and each of
/// its characters is a letter of the alphabet, small or capital, a digit or a hyphen.
pub proof fn labels_by_alphabet(label: Seq<char>)
    ensures
        valid_label(label) <==> {
            &&& label.len() > 0
            &&& label[0] != '-'
            &&& label[label.len() - 1] != '-'
            &&& forall|i: int|
                0 <= i < label.len() ==> {
                    ||| "abcdefghijklmnopqrstuvwxyz"@.contains(#[trigger] label[i])
                    ||| "ABCDEFGHIJKLMNOPQRSTUVWXYZ"@.contains(label[i])
                    ||| "0123456789"@.contains(label[i])
                    ||| label[i] == '-'
                }
        },
{
    assert forall|i: int| 0 <= i < label.len() implies is_label_char(#[trigger] label[i]) == {
        ||| "abcdefghijklmnopqrstuvwxyz"@.contains(label[i])
        ||| "ABCDEFGHIJKLMNOPQRSTUVWXYZ"@.contains(label[i])
        ||| "0123456789"@.contains(label[i])
        ||| label[i] == '-'
    } by {
        crate::text::small_letters(label[i]);
        crate::text::capital_letters(label[i]);
        crate::text::decimal_digits(label[i]);
    }
}

/// A label of small letters, digits and inner hyphens is valid, and is normalized as it stands.
pub proof fn plain_labels_stay(label: Seq<char>)
    requires
        label.len() > 0,
        label[0] != '-',
        label[label.len() - 1] != '-',
        forall|i: int|
            0 <= i < label.len() ==> {
                ||| "abcdefghijklmnopqrstuvwxyz"@.contains(#[trigger] label[i])
                ||| "0123456789"@.contains(label[i])
                ||| label[i] == '-'
            },
    ensures
        valid_label(label),
        normalized(label) == Ok::<Seq<char>, RouteErrorModel>(label),
{
    labels_by_alphabet(label);
    assert forall|i: int| 0 <= i < label.len() implies {
        let c = #[trigger] label[i];
        'a' <= c <= 'z' || '0' <= c <= '9' || c == '-'
    } by {
        crate::text::small_letters(label[i]);
        crate::text::decimal_digits(label[i]);
    }
    host_of_one_label(label);
    assert(crate::text::trim(label) == label);
    label.index_of_last_ensures(':');
    assert(without_port(label) == label);
    assert(crate::text::lower(label) =~= label);
}

/// Normalized hosts with a dot between them are a normalized host.
pub proof fn normalized_hosts_join(a: Seq<char>, b: Seq<char>)
    requires
        normalized(a) == Ok::<Seq<char>, RouteErrorModel>(a),
        normalized(b) == Ok::<Seq<char>, RouteErrorModel>(b),
    ensures
        normalized(a + seq!['.'] + b) == Ok::<Seq<char>, RouteErrorModel>(a + seq!['.'] + b),
{
    let s = a + seq!['.'] + b;
    normalized_host_is_plain(a, a);
    normalized_host_is_plain(b, b);
    valid_hosts_join(a, b);
    assert forall|i: int| 0 <= i < s.len() implies !crate::text::is_white(#[trigger] s[i]) && !('A'
        <= s[i] <= 'Z') && s[i] != ':' && s[i] != '[' by {
        if i < a.len() {
            assert(s[i] == a[i]);
        } else if i > a.len() {
            assert(s[i] == b[i - a.len() - 1]);
        }
    }
    assert(crate::text::trim(s) == s);
    s.index_of_last_ensures(':');
    assert(without_port(s) == s);
    assert(crate::text::lower(s) =~= s);
}

/// A port number behind the only colon is cut off, from 0 to 65535, and nothing else, where the
/// host starts with no closed bracket.
pub proof fn ports_are_cut(name: Seq<char>, port: Seq<char>)
    requires
        !name.contains(':'),
        !(name.len() > 0 && name[0] == '[' && (name.contains(']') || port.contains(']'))),
    ensures
        crate::text::natural(port) is Some && crate::text::natural(port)->0 <= 65535
            ==> without_port(name + seq![':'] + port) == name,
        !port.contains(':') && (crate::text::natural(port) is None || crate::text::natural(port)->0
            > 65535) ==> without_port(name + seq![':'] + port) == name + seq![':'] + port,
{
    let s = name + seq![':'] + port;
    s.index_of_last_ensures(':');
    assert(s[name.len() as int] == ':');
    assert(s.contains(':'));
    if crate::text::natural(port) is Some {
        crate::text::lemma_number_chars(port);
    }
    if crate::text::natural(port) is Some || !port.contains(':') {
        assert forall|j: int| name.len() < j < s.len() implies s[j] != ':' by {
            assert(s[j] == port[j - name.len() - 1]);
            assert(port.contains(port[j - name.len() - 1]));
        }
        assert(s.index_of_last(':') == Some(name.len() as int));
        assert(s.take(name.len() as int) =~= name);
        assert(s.skip(name.len() as int + 1) =~= port);
    }
    if name.len() > 0 {
        assert(s[0] == name[0]);
        let t = s.skip(1);
        if t.contains(']') {
            let k = t.index_of(']') + 1;
            assert(s[k] == ']');
            if k < name.len() {
                assert(name[k] == ']');
            } else {
                assert(port[k - name.len() - 1] == ']');
            }
        }
    }
}

/// Of a host that starts with a bracket which is closed, what stands between is kept, whatever
/// follows.
pub proof fn brackets_are_cut(inner: Seq<char>, rest: Seq<char>)
    requires
        !inner.contains(']'),
    ensures
        without_port(seq!['['] + inner + seq![']'] + rest) == inner,
{
    let s = seq!['['] + inner + seq![']'] + rest;
    let t = s.skip(1);
    let n = inner.len() as int;
    t.index_of_first_ensures(']');
    assert(t[n] == ']');
    assert(t.contains(']'));
    assert forall|j: int| 0 <= j < n implies t[j] != ']' by {
        assert(t[j] == inner[j]);
        assert(inner.contains(inner[j]));
    }
    assert(t.index_of_first(']') == Some(n));
    assert(t.take(n) =~= inner);
}

/// A host without colons, and one with several, keeps all of its text where it starts with no
/// closed bracket.
pub proof fn other_hosts_stay(host: Seq<char>)
    requires
        !(host.len() > 0 && host[0] == '[' && host.contains(']')),
        !host.contains(':') || exists|i: int, j: int|
            0 <= i < j < host.len() && #[trigger] host[i] == ':' && #[trigger] host[j] == ':',
    ensures
        without_port(host) == host,
{
    let t = host.skip(1);
    if t.contains(']') && host.len() > 0 {
        let k = t.index_of(']');
        assert(host[k + 1] == ']');
    }
    host.index_of_last_ensures(':');
    if host.contains(':') {
        let (i, j) = choose|i: int, j: int|
            0 <= i < j < host.len() && #[trigger] host[i] == ':' && #[trigger] host[j] == ':';
        let last = host.index_of_last(':')->0;
        assert(j <= last);
        assert(host.take(last)[i] == ':');
    }
}

/// A text is normalized by what is left of it without white space around, without a port and in
/// small letters: nothing left is an empty host, a valid host is the result, and what is no valid
/// host is told back.
pub proof fn normalizing_has_three_results(host: Seq<char>)
    ensures
        ({
            let left = crate::text::lower(without_port(crate::text::trim(host)));
            &&& normalized(host) == Err::<Seq<char>, RouteErrorModel>(RouteErrorModel::EmptyHost)
                <==> left.len() == 0
            &&& normalized(host) is Ok <==> valid_host(left)
            &&& normalized(host) is Ok ==> normalized(host)->Ok_0 == left
            &&& left.len() > 0 && !valid_host(left) ==> normalized(host) == Err::<
                Seq<char>,
                RouteErrorModel,
            >(RouteErrorModel::InvalidHost(left))
        }),
{
    host_of_one_label(crate::text::lower(without_port(crate::text::trim(host))));
}

// ---------------------------------------------------------------------------------------------
// Laws of results
// ---------------------------------------------------------------------------------------------

/// Routes are refused with the error of the first host that is not valid.
pub proof fn replace_tells_the_first_error(routes: Seq<RouteModel>, i: int, e: RouteErrorModel)
    requires
        0 <= i < routes.len(),
        normalized(routes[i].host) == Err::<Seq<char>, RouteErrorModel>(e),
        forall|j: int| 0 <= j < i ==> normalized((#[trigger] routes[j]).host) is Ok,
    ensures
        table_of(routes) == Err::<TableModel, RouteErrorModel>(e),
{
    let before = routes.take(i);
    assert forall|j: int| 0 <= j < before.len() implies normalized(
        (#[trigger] before[j]).host,
    ) is Ok by {
        assert(before[j] == routes[j]);
    }
    replace_accepts_valid_hosts(before);
    assert(routes.take(i + 1).drop_last() =~= before);
    assert(routes.take(i + 1).last() == routes[i]);
    lemma_table_of_prefix(routes, i + 1);
}

/// A selection is unknown exactly where the text is no host or the table does not know the host,
/// and unavailable exactly where the host has no upstream; else it is the upstream at the count
/// of turns, taken round. Only that counts a turn.
pub proof fn selections_have_three_kinds(table: TableModel, host: Seq<char>)
    ensures
        ({
            let (chosen, after) = selection(table, host);
            let known = normalized(host) is Ok && table.contains_key(normalized(host)->Ok_0);
            let entry = table[normalized(host)->Ok_0];
            let n = entry.upstreams.len() as int;
            &&& chosen is Unknown <==> !known
            &&& chosen is Unavailable <==> known && n == 0
            &&& chosen is Available <==> known && n > 0
            &&& known && n > 0 ==> chosen == SelectionModel::Available(
                entry.upstreams[entry.next as int % n],
            )
            &&& !(known && n > 0) ==> after == table
            &&& known && n > 0 ==> after.contains_key(normalized(host)->Ok_0)
            &&& known && n > 0 && entry.next < usize::MAX ==> after[normalized(host)->Ok_0].next
                == entry.next + 1
        }),
{
}

/// A host error is told in a sentence that holds the host in full, between backquotes.
pub proof fn host_errors_hold_the_host(host: Seq<char>)
    ensures
        ({
            let text = RouteErrorModel::InvalidHost(host).message();
            &&& text.len() == 15 + host.len()
            &&& text.take(14) == "invalid host `"@
            &&& text.subrange(14, 14 + host.len() as int) == host
            &&& text.last() == '`'
        }),
        RouteErrorModel::EmptyHost.message() == "host is required"@,
{
    reveal_strlit("invalid host `");
    reveal_strlit("`");
    let text = RouteErrorModel::InvalidHost(host).message();
    assert(text.take(14) =~= "invalid host `"@);
    assert(text.subrange(14, 14 + host.len() as int) =~= host);
}

/// The contents of a route are its host and the address of each upstream, all of them in order;
/// those of an error and of a selection are what they hold.
pub proof fn route_contents(route: Route, error: RouteError, chosen: RouteSelection)
    ensures
        route@.host == route.host@,
        route@.upstreams.len() == route.upstreams@.len(),
        forall|i: int|
            0 <= i < route.upstreams@.len() ==> #[trigger] route@.upstreams[i]
                == route.upstreams@[i].addr@,
        error is EmptyHost <==> error@ is EmptyHost,
        error is InvalidHost ==> error@ == RouteErrorModel::InvalidHost(error->InvalidHost_0@),
        chosen is Unknown <==> chosen@ is Unknown,
        chosen is Unavailable <==> chosen@ is Unavailable,
        chosen is Available ==> chosen@ == SelectionModel::Available(
            chosen->Available_0.addr@,
        ),
{
}

/// The contents of a list of routes are the contents of each, all of them in order.
pub proof fn route_list_contents(routes: Seq<Route>, i: int)
    requires
        0 <= i < routes.len(),
    ensures
        route_models(routes).len() == routes.len(),
        route_models(routes)[i] == routes[i]@,
{
}

} // verus!
