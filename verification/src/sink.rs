//! Sink-side helpers: the progress-topic key for a sink, and the decisions
//! behind creating a changelog's destination topic.
//!
//! Creating a topic asks the broker for its defaults when the desired
//! partition count or replication factor is left open; the broker's answer
//! is a list of textual configuration entries that must be validated and
//! parsed. All of that deciding and parsing is here; the network calls that
//! fetch the metadata and create the topic stay outside.

use crate::ids::{gid_text, GlobalId};
use vstd::prelude::*;
use vstd::string::StringExecFns;
use vstd::string::StringSliceAdditionalSpecFns;

verus! {

/// A key identifying a given sink within a progress topic.
#[derive(Debug, Clone)]
pub struct ProgressKey(pub String);

/// The text of the progress key for a sink: a fixed prefix followed by the
/// sink's identifier.
pub open spec fn progress_key_text(sink_id: GlobalId) -> Seq<char> {
    "mz-sink-"@ + gid_text(sink_id)
}

impl ProgressKey {
    /// Constructs a progress key for the sink with the specified ID.
    pub fn new(sink_id: GlobalId) -> (r: ProgressKey)
        ensures
            r.0@ == progress_key_text(sink_id),
    {
        let mut s = String::from_str("mz-sink-");
        let id_text = sink_id.to_text();
        s.append(id_text.as_str());
        ProgressKey(s)
    }

    /// The key as the bytes a progress topic stores.
    pub fn to_bytes(&self) -> (r: &[u8])
        ensures
            r@ == vstd::utf8::encode_utf8(self.0@),
    {
        self.0.as_str().as_bytes()
    }

    /// The key as text.
    pub fn as_str(&self) -> (r: &str)
        ensures
            r@ == self.0@,
    {
        self.0.as_str()
    }
}

/// Whether a byte is a decimal digit.
pub open spec fn is_digit_byte(b: u8) -> bool {
    48 <= b <= 57
}

/// The value of a sequence of decimal digit bytes, most significant first.
pub open spec fn digits_value(bs: Seq<u8>) -> int
    decreases bs.len(),
{
    if bs.len() == 0 {
        0
    } else {
        digits_value(bs.drop_last()) * 10 + (bs.last() - 48)
    }
}

/// The digit part of a number's text: everything after an optional sign.
pub open spec fn digit_part(bs: Seq<u8>) -> Seq<u8> {
    if bs.len() > 0 && (bs[0] == 43 || bs[0] == 45) {
        bs.skip(1)
    } else {
        bs
    }
}

/// Whether the bytes spell an optionally signed decimal number.
pub open spec fn int_shape(bs: Seq<u8>) -> bool {
    &&& digit_part(bs).len() > 0
    &&& forall|i: int| 0 <= i < digit_part(bs).len() ==> is_digit_byte(#[trigger] digit_part(bs)[i])
}

/// The signed value the bytes spell.
pub open spec fn int_value(bs: Seq<u8>) -> int {
    if bs.len() > 0 && bs[0] == 45 {
        -digits_value(digit_part(bs))
    } else {
        digits_value(digit_part(bs))
    }
}

/// Why a number's text was rejected.
#[derive(Clone, Copy, Debug, PartialEq, Eq, Structural)]
pub enum NumberError {
    /// The text is not an optionally signed run of decimal digits.
    Invalid,
    /// The value does not fit the target type.
    OutOfRange,
}

/// Digit values never shrink as more digits follow.
proof fn lemma_digits_mono(bs: Seq<u8>, n1: int, n2: int)
    requires
        0 <= n1 <= n2 <= bs.len(),
        forall|i: int| 0 <= i < bs.len() ==> is_digit_byte(#[trigger] bs[i]),
    ensures
        digits_value(bs.take(n1)) <= digits_value(bs.take(n2)),
        digits_value(bs.take(n1)) >= 0,
    decreases n2 - n1, n1,
{
    if n1 > 0 && n1 == n2 {
        lemma_digits_mono(bs, n1 - 1, n1 - 1);
        assert(bs.take(n1).drop_last() =~= bs.take(n1 - 1));
        assert(digits_value(bs.take(n1 - 1)) * 10 >= digits_value(bs.take(n1 - 1))) by (nonlinear_arith)
            requires
                digits_value(bs.take(n1 - 1)) >= 0,
        ;
    }
    if n1 < n2 {
        lemma_digits_mono(bs, n1, n2 - 1);
        lemma_digits_mono(bs, n2 - 1, n2 - 1);
        assert(bs.take(n2).drop_last() =~= bs.take(n2 - 1));
        assert(digits_value(bs.take(n2)) == digits_value(bs.take(n2 - 1)) * 10 + (bs.take(
            n2,
        ).last() - 48));
        assert(digits_value(bs.take(n2 - 1)) * 10 >= digits_value(bs.take(n2 - 1))) by (nonlinear_arith)
            requires
                digits_value(bs.take(n2 - 1)) >= 0,
        ;
    }
}

/// Parse an optionally signed decimal number into a 32-bit value: accepted
/// exactly when the text has the right shape and the value fits.
pub fn parse_i32(s: &str) -> (r: Result<i32, NumberError>)
    ensures
        match r {
            Ok(v) => {
                &&& int_shape(s.spec_bytes())
                &&& i32::MIN <= int_value(s.spec_bytes()) <= i32::MAX
                &&& v == int_value(s.spec_bytes())
            },
            Err(NumberError::Invalid) => !int_shape(s.spec_bytes()),
            Err(NumberError::OutOfRange) => {
                &&& int_shape(s.spec_bytes())
                &&& !(i32::MIN <= int_value(s.spec_bytes()) <= i32::MAX)
            },
        },
{
    let bs = s.as_bytes();
    let ghost whole = s.spec_bytes();
    let n = bs.len();
    let mut start: usize = 0;
    let mut negative = false;
    if n > 0 && (bs[0] == 43 || bs[0] == 45) {
        start = 1;
        negative = bs[0] == 45;
    }
    let ghost digits = digit_part(whole);
    proof {
        assert(digits =~= whole.skip(start as int));
    }
    if n == start {
        return Err(NumberError::Invalid);
    }
    let mut i: usize = start;
    while i < n
        invariant
            start <= i <= n,
            n == whole.len(),
            bs@ == whole,
            whole == s.spec_bytes(),
            digits == whole.skip(start as int),
            digits == digit_part(whole),
            forall|j: int| 0 <= j < i - start ==> is_digit_byte(#[trigger] digits[j]),
        decreases n - i,
    {
        let b = bs[i];
        if b < 48 || b > 57 {
            proof {
                assert(digits.len() == n - start);
                assert(digit_part(whole) == digits);
                assert(0 <= i - start < digit_part(whole).len());
                assert(digits[i - start] == whole[i as int]);
                assert(!is_digit_byte(digit_part(whole)[i - start]));
                if int_shape(whole) {
                    assert(is_digit_byte(digit_part(whole)[i - start]));
                    assert(false);
                }
            }
            return Err(NumberError::Invalid);
        }
        i = i + 1;
        proof {
            assert forall|j: int| 0 <= j < i - start implies is_digit_byte(
                #[trigger] digits[j],
            ) by {
                if j == i - start - 1 {
                    assert(digits[j] == whole[start + j]);
                }
            }
        }
    }
    proof {
        assert(int_shape(whole));
    }
    let bound: i64 = 0x8000_0000i64;
    let mut value: i64 = 0;
    let mut too_big = false;
    let mut p: usize = start;
    while p < n
        invariant
            start <= p <= n,
            n == whole.len(),
            bs@ == whole,
            whole == s.spec_bytes(),
            digits == whole.skip(start as int),
            digits == digit_part(whole),
            (negative <==> (whole.len() > 0 && whole[0] == 45)),
            int_shape(whole),
            forall|j: int| 0 <= j < digits.len() ==> is_digit_byte(#[trigger] digits[j]),
            bound == 0x8000_0000i64,
            !too_big ==> value == digits_value(digits.take(p - start)) && 0 <= value <= bound,
            too_big ==> digits_value(digits.take(p - start)) > bound,
        decreases n - p,
    {
        let b = bs[p];
        proof {
            assert(digits[p - start] == whole[p as int]);
            assert(b == digits[p - start]);
            assert(is_digit_byte(b));
            assert(digits.take(p - start + 1).drop_last() =~= digits.take(p - start));
            assert(digits.take(p - start + 1).last() == digits[p - start]);
            lemma_digits_mono(digits, p - start, p - start + 1);
        }
        if too_big {
            proof {
                lemma_digits_mono(digits, p - start, p - start + 1);
            }
        } else {
            let d = (b - 48) as i64;
            let next = value * 10 + d;
            if next > bound {
                too_big = true;
            } else {
                value = next;
            }
        }
        p = p + 1;
    }
    proof {
        assert(digits.take(digits.len() as int) =~= digits);
    }
    if too_big || (negative && value > bound) || (!negative && value >= bound) {
        return Err(NumberError::OutOfRange);
    }
    if negative {
        if value == bound {
            Ok(i32::MIN)
        } else {
            Ok(-(value as i32))
        }
    } else {
        Ok(value as i32)
    }
}

/// One textual configuration entry a broker reports.
#[derive(Clone, Debug)]
pub struct ConfigEntry {
    /// The entry's name.
    pub name: String,
    /// The entry's value, if it has one.
    pub value: Option<String>,
}

/// The byte reading of one entry.
pub open spec fn entry_view(e: ConfigEntry) -> (Seq<u8>, Option<Seq<u8>>) {
    (
        vstd::utf8::encode_utf8(e.name@),
        match e.value {
            Some(v) => Some(vstd::utf8::encode_utf8(v@)),
            None => None,
        },
    )
}

/// The byte readings of a broker's entries.
pub open spec fn entry_views(es: Seq<ConfigEntry>) -> Seq<(Seq<u8>, Option<Seq<u8>>)> {
    es.map_values(|e: ConfigEntry| entry_view(e))
}

/// The topic settings derived from a broker's configuration.
#[derive(Clone, Copy, Debug, PartialEq, Eq, Structural)]
pub struct TopicConfigs {
    /// The broker's default partition count, `-1` when it reported none.
    pub partition_count: i32,
    /// The broker's default replication factor, `-1` when it reported none.
    pub replication_factor: i32,
}

/// Why a broker's answer was rejected.
#[derive(Clone, Copy, Debug, PartialEq, Eq, Structural)]
pub enum TopicConfigError {
    /// The metadata reported no brokers at all.
    NoBrokers,
    /// The broker returned other than exactly one configuration result.
    WrongConfigCount,
    /// The configuration result held no entries.
    EmptyConfig,
    /// The reported default partition count is not a 32-bit number.
    BadPartitionCount,
    /// The reported default replication factor is not a 32-bit number.
    BadReplicationFactor,
}

/// The entry name carrying the default partition count.
pub open spec fn np_name() -> Seq<u8> {
    vstd::utf8::encode_utf8("num.partitions"@)
}

/// The entry name carrying the default replication factor.
pub open spec fn rf_name() -> Seq<u8> {
    vstd::utf8::encode_utf8("default.replication.factor"@)
}

/// Whether a value parses into the 32-bit range.
pub open spec fn fits_i32(v: Seq<u8>) -> bool {
    int_shape(v) && i32::MIN <= int_value(v) <= i32::MAX
}

/// Fold a broker's entries, in order, into the two settings: for each
/// setting, the first entry with the matching name and a value decides it,
/// and a value that is not a 32-bit number fails the whole derivation.
pub open spec fn spec_fold_configs(
    es: Seq<(Seq<u8>, Option<Seq<u8>>)>,
    pc: Option<int>,
    rf: Option<int>,
) -> Result<(Option<int>, Option<int>), TopicConfigError>
    decreases es.len(),
{
    if es.len() == 0 {
        Ok((pc, rf))
    } else {
        let e = es[0];
        let rest = es.skip(1);
        if e.0 == np_name() && pc is None {
            match e.1 {
                None => spec_fold_configs(rest, pc, rf),
                Some(v) => if fits_i32(v) {
                    spec_fold_configs(rest, Some(int_value(v)), rf)
                } else {
                    Err(TopicConfigError::BadPartitionCount)
                },
            }
        } else if e.0 == rf_name() && rf is None {
            match e.1 {
                None => spec_fold_configs(rest, pc, rf),
                Some(v) => if fits_i32(v) {
                    spec_fold_configs(rest, pc, Some(int_value(v)))
                } else {
                    Err(TopicConfigError::BadReplicationFactor)
                },
            }
        } else {
            spec_fold_configs(rest, pc, rf)
        }
    }
}

/// Whether two strings hold the same bytes.
fn str_eq(a: &str, b: &str) -> (r: bool)
    ensures
        r <==> a.spec_bytes() == b.spec_bytes(),
{
    let ab = a.as_bytes();
    let bb = b.as_bytes();
    if ab.len() != bb.len() {
        return false;
    }
    let mut i: usize = 0;
    while i < ab.len()
        invariant
            i <= ab@.len(),
            ab@ == a.spec_bytes(),
            bb@ == b.spec_bytes(),
            ab@.len() == bb@.len(),
            forall|j: int| 0 <= j < i ==> ab@[j] == bb@[j],
        decreases ab@.len() - i,
    {
        if ab[i] != bb[i] {
            return false;
        }
        i = i + 1;
    }
    proof {
        assert(ab@ =~= bb@);
    }
    true
}

/// Derive the topic settings from the metadata a broker answered: the
/// number of brokers seen, the number of configuration results, and the
/// entries of the one result. Exactly mirrors the fold of the entries in
/// order; a malformed numeric value is rejected, and a setting no entry
/// decides stays `-1`.
pub fn derive_topic_configs(
    broker_count: usize,
    config_count: usize,
    entries: &Vec<ConfigEntry>,
) -> (r: Result<TopicConfigs, TopicConfigError>)
    ensures
        broker_count == 0 ==> r == Err::<TopicConfigs, TopicConfigError>(
            TopicConfigError::NoBrokers,
        ),
        broker_count > 0 && config_count != 1 ==> r == Err::<TopicConfigs, TopicConfigError>(
            TopicConfigError::WrongConfigCount,
        ),
        broker_count > 0 && config_count == 1 && entries@.len() == 0 ==> r == Err::<
            TopicConfigs,
            TopicConfigError,
        >(TopicConfigError::EmptyConfig),
        broker_count > 0 && config_count == 1 && entries@.len() > 0 ==> r == (match
            spec_fold_configs(entry_views(entries@), None, None) {
            Ok((pc, rf)) => Ok::<TopicConfigs, TopicConfigError>(
                TopicConfigs {
                    partition_count: (match pc {
                        Some(v) => v,
                        None => -1,
                    }) as i32,
                    replication_factor: (match rf {
                        Some(v) => v,
                        None => -1,
                    }) as i32,
                },
            ),
            Err(e) => Err::<TopicConfigs, TopicConfigError>(e),
        }),
{
    if broker_count == 0 {
        return Err(TopicConfigError::NoBrokers);
    }
    if config_count != 1 {
        return Err(TopicConfigError::WrongConfigCount);
    }
    if entries.len() == 0 {
        return Err(TopicConfigError::EmptyConfig);
    }
    let ghost views = entry_views(entries@);
    let mut pc: Option<i32> = None;
    let mut rf: Option<i32> = None;
    let mut i: usize = 0;
    proof {
        assert(views.skip(0) =~= views);
    }
    while i < entries.len()
        invariant
            broker_count > 0,
            config_count == 1,
            entries@.len() > 0,
            i <= entries@.len(),
            views == entry_views(entries@),
            spec_fold_configs(views, None, None) == spec_fold_configs(
                views.skip(i as int),
                match pc {
                    Some(v) => Some(v as int),
                    None => None,
                },
                match rf {
                    Some(v) => Some(v as int),
                    None => None,
                },
            ),
        decreases entries@.len() - i,
    {
        let entry = &entries[i];
        let ghost gpc: Option<int> = match pc {
            Some(v) => Some(v as int),
            None => None,
        };
        let ghost grf: Option<int> = match rf {
            Some(v) => Some(v as int),
            None => None,
        };
        let ghost e = views.skip(i as int)[0];
        proof {
            assert(e == views[i as int]);
            assert(views[i as int] == entry_view(entries@[i as int]));
            assert(views.skip(i as int).skip(1) =~= views.skip(i as int + 1));
        }
        let is_np = str_eq(entry.name.as_str(), "num.partitions");
        let is_rf = str_eq(entry.name.as_str(), "default.replication.factor");
        proof {
            assert(is_np <==> e.0 == np_name());
            assert(is_rf <==> e.0 == rf_name());
        }
        if is_np && pc.is_none() {
            match &entry.value {
                Some(v) => {
                    proof {
                        assert(e.1 == Some(vstd::utf8::encode_utf8(v@)));
                    }
                    match parse_i32(v.as_str()) {
                        Ok(x) => {
                            pc = Some(x);
                            proof {
                                assert(fits_i32(vstd::utf8::encode_utf8(v@)));
                                assert(spec_fold_configs(views.skip(i as int), gpc, grf)
                                    == spec_fold_configs(
                                    views.skip(i as int + 1),
                                    Some(x as int),
                                    grf,
                                ));
                            }
                        },
                        Err(_) => {
                            proof {
                                assert(!fits_i32(vstd::utf8::encode_utf8(v@)));
                                assert(spec_fold_configs(views.skip(i as int), gpc, grf) == Err::<
                                    (Option<int>, Option<int>),
                                    TopicConfigError,
                                >(TopicConfigError::BadPartitionCount));
                            }
                            return Err(TopicConfigError::BadPartitionCount);
                        },
                    }
                },
                None => {
                    proof {
                        assert(e.1 is None);
                        assert(spec_fold_configs(views.skip(i as int), gpc, grf)
                            == spec_fold_configs(views.skip(i as int + 1), gpc, grf));
                    }
                },
            }
        } else if is_rf && rf.is_none() {
            match &entry.value {
                Some(v) => {
                    proof {
                        assert(e.1 == Some(vstd::utf8::encode_utf8(v@)));
                    }
                    match parse_i32(v.as_str()) {
                        Ok(x) => {
                            rf = Some(x);
                            proof {
                                assert(fits_i32(vstd::utf8::encode_utf8(v@)));
                                assert(spec_fold_configs(views.skip(i as int), gpc, grf)
                                    == spec_fold_configs(
                                    views.skip(i as int + 1),
                                    gpc,
                                    Some(x as int),
                                ));
                            }
                        },
                        Err(_) => {
                            proof {
                                assert(!fits_i32(vstd::utf8::encode_utf8(v@)));
                                assert(spec_fold_configs(views.skip(i as int), gpc, grf) == Err::<
                                    (Option<int>, Option<int>),
                                    TopicConfigError,
                                >(TopicConfigError::BadReplicationFactor));
                            }
                            return Err(TopicConfigError::BadReplicationFactor);
                        },
                    }
                },
                None => {
                    proof {
                        assert(e.1 is None);
                        assert(spec_fold_configs(views.skip(i as int), gpc, grf)
                            == spec_fold_configs(views.skip(i as int + 1), gpc, grf));
                    }
                },
            }
        } else {
            proof {
                assert(spec_fold_configs(views.skip(i as int), gpc, grf) == spec_fold_configs(
                    views.skip(i as int + 1),
                    gpc,
                    grf,
                ));
            }
        }
        i = i + 1;
    }
    proof {
        assert(views.skip(entries@.len() as int) =~= Seq::<(Seq<u8>, Option<Seq<u8>>)>::empty());
    }
    let partition_count = match pc {
        Some(v) => v,
        None => -1,
    };
    let replication_factor = match rf {
        Some(v) => v,
        None => -1,
    };
    Ok(TopicConfigs { partition_count, replication_factor })
}

/// Resolve the topic options to use when creating a topic: a setting the
/// caller fixed wins; otherwise the broker's discovered default is used;
/// with no discovery either, `-1` asks the broker to apply its own default.
pub fn resolve_topic_options(
    partition_count: Option<i32>,
    replication_factor: Option<i32>,
    discovered: Option<&TopicConfigs>,
) -> (r: (i32, i32))
    ensures
        r.0 == (match partition_count {
            Some(p) => p,
            None => match discovered {
                Some(c) => c.partition_count,
                None => -1i32,
            },
        }),
        r.1 == (match replication_factor {
            Some(f) => f,
            None => match discovered {
                Some(c) => c.replication_factor,
                None => -1i32,
            },
        }),
{
    let p = match partition_count {
        Some(p) => p,
        None => match discovered {
            Some(c) => c.partition_count,
            None => -1,
        },
    };
    let f = match replication_factor {
        Some(f) => f,
        None => match discovered {
            Some(c) => c.replication_factor,
            None => -1,
        },
    };
    (p, f)
}

/// The schema kinds a registry accepts.
#[derive(Clone, Copy, Debug, PartialEq, Eq, Structural)]
pub enum SchemaType {
    /// An Avro schema.
    Avro,
    /// A JSON schema.
    Json,
    /// A Protobuf schema.
    Protobuf,
}

/// A key schema was given without saying what kind it is.
#[derive(Clone, Copy, Debug, PartialEq, Eq, Structural)]
pub enum SchemaPlanError {
    /// The key schema's type is missing.
    MissingKeySchemaType,
}

/// Decide what key schema, if any, to publish beside the value schema: a
/// key schema must come with its type, and without a key schema nothing is
/// published for the key.
pub fn key_schema_plan(key_schema: Option<String>, key_schema_type: Option<SchemaType>) -> (r:
    Result<Option<(String, SchemaType)>, SchemaPlanError>)
    ensures
        match key_schema {
            None => r matches Ok(None),
            Some(s) => match key_schema_type {
                None => r == Err::<Option<(String, SchemaType)>, SchemaPlanError>(
                    SchemaPlanError::MissingKeySchemaType,
                ),
                Some(t) => r matches Ok(Some((rs, rt))) && rs@ == s@ && rt == t,
            },
        },
{
    match key_schema {
        None => Ok(None),
        Some(s) => match key_schema_type {
            None => Err(SchemaPlanError::MissingKeySchemaType),
            Some(t) => Ok(Some((s, t))),
        },
    }
}

} // verus!
