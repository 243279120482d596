use vstd::prelude::*;
use crate::decimal::decimal_at_most;
use crate::decimal::decimal_value;
use crate::decimal::parse_u64;
use crate::decimal::parse_usize;

verus! {

/// The names and values of decoded query pairs, as text.
pub open spec fn pair_views(pairs: Seq<(String, String)>) -> Seq<(Seq<char>, Seq<char>)> {
    Seq::new(pairs.len(), |i: int| (pairs[i].0@, pairs[i].1@))
}

/// The map that inserting the pairs one after the other gives: a name that
/// occurs more than once keeps its last value.
pub open spec fn pairs_to_map(pairs: Seq<(Seq<char>, Seq<char>)>) -> Map<Seq<char>, Seq<char>>
    decreases pairs.len(),
{
    if pairs.len() == 0 {
        Map::empty()
    } else {
        pairs_to_map(pairs.drop_last()).insert(pairs.last().0, pairs.last().1)
    }
}

/// The (name, value) pairs that `application/x-www-form-urlencoded` parsing of
/// `query` yields, in order, percent-decoded and with `+` read as a space.
pub uninterp spec fn form_urlencoded_pairs(query: Seq<char>) -> Seq<(Seq<char>, Seq<char>)>;

/// Parses a query string into its (name, value) pairs with
/// `url::form_urlencoded::parse`. The contract says only that the pairs are
/// those the parser gives for this query; the decoding rules themselves are
/// the parser's and are not stated here.
#[verifier::external_body]
fn decode_query_pairs(query: &str) -> (pairs: Vec<(String, String)>)
    ensures
        pair_views(pairs@) == form_urlencoded_pairs(query@),
{
    url::form_urlencoded::parse(query.as_bytes()).into_owned().collect()
}

/// The parameters of a query: one value per name.
pub struct QueryParams {
    pairs: Vec<(String, String)>,
}

/// A map built by inserting pairs holds, for a name that no later pair
/// carries, what the earlier pairs gave it.
proof fn lemma_later_pairs_miss(pairs: Seq<(Seq<char>, Seq<char>)>, key: Seq<char>, i: int)
    requires
        0 <= i <= pairs.len(),
        forall|j: int| i <= j < pairs.len() ==> (#[trigger] pairs[j]).0 != key,
    ensures
        pairs_to_map(pairs).contains_key(key) == pairs_to_map(pairs.take(i)).contains_key(key),
        pairs_to_map(pairs).contains_key(key) ==> pairs_to_map(pairs)[key] == pairs_to_map(
            pairs.take(i),
        )[key],
    decreases pairs.len(),
{
    if i < pairs.len() {
        assert(pairs.drop_last().take(i) =~= pairs.take(i));
        assert(pairs.last() == pairs[pairs.len() - 1]);
        lemma_later_pairs_miss(pairs.drop_last(), key, i);
    } else {
        assert(pairs.take(i) =~= pairs);
    }
}

impl View for QueryParams {
    type V = Map<Seq<char>, Seq<char>>;

    closed spec fn view(&self) -> Map<Seq<char>, Seq<char>> {
        pairs_to_map(pair_views(self.pairs@))
    }
}

impl QueryParams {
    /// Collects decoded pairs; where a name repeats, its last value counts.
    pub fn from_pairs(pairs: Vec<(String, String)>) -> (params: Self)
        ensures
            params@ == pairs_to_map(pair_views(pairs@)),
    {
        QueryParams { pairs }
    }

    /// The value of the parameter `name`, if the query has one.
    pub fn get(&self, name: &str) -> (value: Option<&String>)
        ensures
            match value {
                Some(v) => self@.contains_key(name@) && self@[name@] == v@,
                None => !self@.contains_key(name@),
            },
    {
        let ghost views = pair_views(self.pairs@);
        let wanted = name.to_owned();
        let mut i = self.pairs.len();
        while i > 0
            invariant
                i <= self.pairs.len(),
                views == pair_views(self.pairs@),
                wanted@ == name@,
                forall|j: int| i <= j < views.len() ==> (#[trigger] views[j]).0 != name@,
            decreases i,
        {
            i = i - 1;
            if self.pairs[i].0 == wanted {
                proof {
                    lemma_later_pairs_miss(views, name@, i + 1);
                    assert(views.take(i + 1).drop_last() =~= views.take(i as int));
                    assert(views.take(i + 1).last() == views[i as int]);
                }
                return Some(&self.pairs[i].1);
            }
        }
        proof {
            lemma_later_pairs_miss(views, name@, 0);
            assert(views.take(0).len() == 0);
        }
        None
    }
}

/// The parameters of a query string; no query gives no parameters.
pub fn query_str_to_map(query: Option<&str>) -> (params: QueryParams)
    ensures
        params@ == match query {
            Some(q) => pairs_to_map(form_urlencoded_pairs(q@)),
            None => Map::empty(),
        },
{
    match query {
        Some(q) => QueryParams::from_pairs(decode_query_pairs(q)),
        None => QueryParams::from_pairs(Vec::new()),
    }
}

/// The name of the parameter that gives how many ids are asked for.
pub open spec fn num_param() -> Seq<char> {
    seq!['n', 'u', 'm']
}

/// The name of the parameter that gives the sharding id.
pub open spec fn sharding_id_param() -> Seq<char> {
    seq!['s', 'h', 'a', 'r', 'd', 'i', 'n', 'g', '_', 'i', 'd']
}

/// How many ids the parameters ask for: the value of `num` as a `usize`, and 1
/// where it is missing or no such number.
pub open spec fn requested_num(params: Map<Seq<char>, Seq<char>>) -> nat {
    if params.contains_key(num_param()) {
        match decimal_at_most(params[num_param()], usize::MAX as nat) {
            Some(n) => n,
            None => 1,
        }
    } else {
        1
    }
}

/// The sharding id the parameters give: the value of `sharding_id` as a `u64`,
/// or none where it is missing or no such number.
pub open spec fn requested_sharding_id(params: Map<Seq<char>, Seq<char>>) -> Option<nat> {
    if params.contains_key(sharding_id_param()) {
        decimal_at_most(params[sharding_id_param()], u64::MAX as nat)
    } else {
        None
    }
}

/// How many ids the parameters ask for; 1 by default.
pub fn parse_num(params: &QueryParams) -> (num: usize)
    ensures
        num == requested_num(params@),
{
    proof {
        reveal_strlit("num");
        assert("num"@ =~= num_param());
    }
    let num = match params.get("num") {
        None => 1,
        Some(u) => match parse_usize(u.as_str()) {
            Some(r) => r,
            None => 1,
        },
    };
    num
}

/// The sharding id and the number of ids that the parameters ask for; none
/// where the sharding id is missing or no `u64`.
pub fn parse_params(params: &QueryParams) -> (r: Option<(u64, usize)>)
    ensures
        match r {
            Some((sharding_id, num)) => requested_sharding_id(params@) == Some(sharding_id as nat)
                && num == requested_num(params@),
            None => requested_sharding_id(params@) is None,
        },
{
    proof {
        reveal_strlit("sharding_id");
        assert("sharding_id"@ =~= sharding_id_param());
    }
    let sharding_id = match params.get("sharding_id") {
        None => return None,
        Some(u) => match parse_u64(u.as_str()) {
            Some(r) => r,
            None => return None,
        },
    };
    let num = parse_num(params);
    Some((sharding_id, num))
}

/// The sharding id and the number of ids that a request's query string asks for.
pub fn parse_query_str(query: Option<&str>) -> (r: Option<(u64, usize)>)
    ensures
        ({
            let params = match query {
                Some(q) => pairs_to_map(form_urlencoded_pairs(q@)),
                None => Map::empty(),
            };
            match r {
                Some((sharding_id, num)) => requested_sharding_id(params) == Some(sharding_id as nat)
                    && num == requested_num(params),
                None => requested_sharding_id(params) is None,
            }
        }),
{
    let params = query_str_to_map(query);
    parse_params(&params)
}

/// The number of ids a request asks for is exactly the decimal its `num`
/// parameter spells, whenever that decimal fits in a `usize`; it is 1 only where
/// `num` is missing, is no decimal, or is too large for a `usize`.
pub proof fn law_requested_num(params: Map<Seq<char>, Seq<char>>)
    ensures
        ({
            let key = seq!['n', 'u', 'm'];
            &&& forall|n: nat|
                params.contains_key(key) && decimal_value(params[key]) == Some(n) && n
                    <= usize::MAX ==> #[trigger] requested_num(params) == n
            &&& !params.contains_key(key) ==> requested_num(params) == 1
            &&& params.contains_key(key) && decimal_value(params[key]) is None ==> requested_num(
                params,
            ) == 1
            &&& params.contains_key(key) && (decimal_value(params[key]) matches Some(n) && n
                > usize::MAX) ==> requested_num(params) == 1
        }),
{
    assert(seq!['n', 'u', 'm'] =~= num_param());
}

/// The sharding id a request gives is exactly the decimal its `sharding_id`
/// parameter spells, whenever that decimal fits in a `u64`; there is none only
/// where the parameter is missing, is no decimal, or is too large for a `u64`.
pub proof fn law_requested_sharding_id(params: Map<Seq<char>, Seq<char>>)
    ensures
        ({
            let key = seq!['s', 'h', 'a', 'r', 'd', 'i', 'n', 'g', '_', 'i', 'd'];
            &&& forall|n: nat|
                params.contains_key(key) && decimal_value(params[key]) == Some(n) && n
                    <= u64::MAX ==> #[trigger] requested_sharding_id(params) == Some(n)
            &&& !params.contains_key(key) ==> requested_sharding_id(params) is None
            &&& params.contains_key(key) && decimal_value(params[key]) is None
                ==> requested_sharding_id(params) is None
            &&& params.contains_key(key) && (decimal_value(params[key]) matches Some(n) && n
                > u64::MAX) ==> requested_sharding_id(params) is None
        }),
{
    assert(seq!['s', 'h', 'a', 'r', 'd', 'i', 'n', 'g', '_', 'i', 'd'] =~= sharding_id_param());
}

/// The parameters of a query hold the names its pairs carry and no others,
/// and a pair that comes last gives its name its value whatever came before,
/// leaving every other name as it was.
pub proof fn law_pairs_to_map(
    pairs: Seq<(Seq<char>, Seq<char>)>,
    name: Seq<char>,
    value: Seq<char>,
)
    ensures
        pairs_to_map(pairs).contains_key(name) <==> (exists|i: int|
            0 <= i < pairs.len() && (#[trigger] pairs[i]).0 == name),
        pairs_to_map(pairs.push((name, value))).contains_key(name),
        pairs_to_map(pairs.push((name, value)))[name] == value,
        forall|other: Seq<char>|
            other != name ==> (#[trigger] pairs_to_map(pairs.push((name, value))).contains_key(other)
                == pairs_to_map(pairs).contains_key(other) && (pairs_to_map(pairs).contains_key(other)
                ==> pairs_to_map(pairs.push((name, value)))[other] == pairs_to_map(pairs)[other])),
    decreases pairs.len(),
{
    let pushed = pairs.push((name, value));
    assert(pushed.drop_last() =~= pairs);
    assert(pushed.last() == (name, value));
    if pairs.len() > 0 {
        law_pairs_to_map(pairs.drop_last(), name, value);
        let l = pairs.last();
        if pairs_to_map(pairs).contains_key(name) && l.0 != name {
            let i = choose|i: int| 0 <= i < pairs.drop_last().len() && (#[trigger] pairs.drop_last()[i]).0 == name;
            assert(pairs[i] == pairs.drop_last()[i]);
        }
        if exists|i: int| 0 <= i < pairs.len() && (#[trigger] pairs[i]).0 == name {
            let i = choose|i: int| 0 <= i < pairs.len() && (#[trigger] pairs[i]).0 == name;
            if i < pairs.len() - 1 {
                assert(pairs.drop_last()[i] == pairs[i]);
            }
        }
    }
}

} // verus!
