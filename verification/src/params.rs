//! The iperf3 test parameters a client sends, and which of them this server
//! accepts: TCP only, not bidirectional, 1 to 128 streams, a positive block
//! length, and a test of at most one day.
use vstd::prelude::*;
use vstd::string::StringSliceAdditionalSpecFns;
use std::time::Duration;
use crate::json::{object_fields, parse_object_fields, fields_match, InvalidJson};
use crate::text::{bytes_eq, parse_i64, parse_i64_spec};

verus! {

/// Largest number of parallel data streams.
pub const MAX_STREAMS: usize = 128;

/// Longest test, including the omitted start: one day in seconds.
pub const MAX_TEST_SECONDS: i64 = 86400;

/// The parameters a client may send.
#[derive(PartialEq, Eq, Debug, Clone, Copy, Structural)]
pub enum Param {
    Tcp,
    Bidirectional,
    Parallel,
    Len,
    Time,
    Omit,
    Reverse,
}

/// The JSON key of each parameter.
pub open spec fn param_key(p: Param) -> Seq<char> {
    match p {
        Param::Tcp => "tcp"@,
        Param::Bidirectional => "bidirectional"@,
        Param::Parallel => "parallel"@,
        Param::Len => "len"@,
        Param::Time => "time"@,
        Param::Omit => "omit"@,
        Param::Reverse => "reverse"@,
    }
}

impl Param {
    /// The JSON key of the parameter.
    pub fn key(&self) -> (r: &'static str)
        ensures
            r@ == param_key(*self),
    {
        match self {
            Param::Tcp => "tcp",
            Param::Bidirectional => "bidirectional",
            Param::Parallel => "parallel",
            Param::Len => "len",
            Param::Time => "time",
            Param::Omit => "omit",
            Param::Reverse => "reverse",
        }
    }
}

/// Why a client's parameters were refused.
#[derive(PartialEq, Eq, Debug, Clone, Copy, Structural)]
pub enum ParamError {
    /// The JSON is not an object of the accepted form.
    InvalidJson,
    /// A parameter that must be `true` or `false` is neither.
    NotBoolean(Param),
    /// A parameter that must be an integer is none.
    NotInteger(Param),
    /// The test is not a TCP test.
    NotTcp,
    /// The test is bidirectional.
    Bidirectional,
    /// The stream count is not between 1 and [`MAX_STREAMS`].
    InvalidStreams,
    /// The block length is below 1.
    InvalidBlockSize,
    /// The test time or omitted time is negative, or the two total more than [`MAX_TEST_SECONDS`].
    InvalidDuration,
}

/// The accepted parameters of a test.
#[derive(Debug)]
pub struct Parameters {
    /// Number of parallel data streams.
    pub streams: usize,
    /// Whether the server sends (reverse mode) instead of receiving.
    pub reverse: bool,
    /// Size of the blocks the data streams read or write, 1 KiB to 1 MiB.
    pub block_size: usize,
    /// How long the control connection may stay silent during the test.
    pub test_timeout: Duration,
}

/// The value `Duration::from_secs` gives for `secs`.
pub uninterp spec fn secs_duration(secs: u64) -> Duration;

/// `Duration::from_secs`: claimed to give the duration named [`secs_duration`]
/// of its argument, a value that depends on the argument alone.
#[verifier::external_body]
fn duration_from_secs(secs: u64) -> (d: Duration)
    ensures
        d == secs_duration(secs),
{
    Duration::from_secs(secs)
}

/// The value of the first field named `key`, among fields `f` of `s`.
pub open spec fn field_value(s: Seq<u8>, f: Seq<(int, int, int, int)>, key: Seq<u8>) -> Option<Seq<u8>>
    decreases f.len(),
{
    if f.len() == 0 {
        None
    } else if s.subrange(f[0].0, f[0].1) == key {
        Some(s.subrange(f[0].2, f[0].3))
    } else {
        field_value(s, f.drop_first(), key)
    }
}

/// The value of the first pair whose key is `key`.
pub open spec fn pair_value(fields: Seq<(&str, &str)>, key: Seq<u8>) -> Option<Seq<u8>>
    decreases fields.len(),
{
    if fields.len() == 0 {
        None
    } else if fields[0].0.spec_bytes() == key {
        Some(fields[0].1.spec_bytes())
    } else {
        pair_value(fields.drop_first(), key)
    }
}

/// A boolean parameter's value: absent, `true`, `false`, or refused (`Err`).
pub open spec fn bool_value(v: Option<Seq<u8>>) -> Result<Option<bool>, ()> {
    match v {
        None => Ok(None),
        Some(t) => if t == "true".spec_bytes() {
            Ok(Some(true))
        } else if t == "false".spec_bytes() {
            Ok(Some(false))
        } else {
            Err(())
        },
    }
}

/// An integer parameter's value: absent, an `i64`, or refused (`Err`).
pub open spec fn int_value(v: Option<Seq<u8>>) -> Result<Option<int>, ()> {
    match v {
        None => Ok(None),
        Some(t) => match parse_i64_spec(t) {
            Ok(n) => Ok(Some(n)),
            Err(_) => Err(()),
        },
    }
}

/// The boolean parameter `key` among `fields`: `None` when absent, and
/// `Err` when its value is neither `true` nor `false`.
pub fn json_bool(fields: &[(&str, &str)], key: &str) -> (r: Result<Option<bool>, ()>)
    ensures
        r == bool_value(pair_value(fields@, key.spec_bytes())),
{
    let mut i: usize = 0;
    assert(fields@.subrange(0, fields@.len() as int) =~= fields@);
    while i < fields.len()
        invariant
            i <= fields@.len(),
            pair_value(fields@, key.spec_bytes()) == pair_value(fields@.subrange(i as int, fields@.len() as int), key.spec_bytes()),
        decreases fields@.len() - i,
    {
        let ghost rest = fields@.subrange(i as int, fields@.len() as int);
        assert(rest.drop_first() =~= fields@.subrange(i + 1, fields@.len() as int));
        let (name, value) = fields[i];
        if bytes_eq(name.as_bytes(), key.as_bytes()) {
            if bytes_eq(value.as_bytes(), "true".as_bytes()) {
                return Ok(Some(true));
            } else if bytes_eq(value.as_bytes(), "false".as_bytes()) {
                return Ok(Some(false));
            } else {
                return Err(());
            }
        }
        i = i + 1;
    }
    Ok(None)
}

/// The integer parameter `key` among `fields`: `None` when absent, and
/// `Err` when its value is no `i64`.
pub fn json_number(fields: &[(&str, &str)], key: &str) -> (r: Result<Option<i64>, ()>)
    ensures
        match int_value(pair_value(fields@, key.spec_bytes())) {
            Ok(Some(n)) => r == Ok::<Option<i64>, ()>(Some(n as i64)),
            Ok(None) => r == Ok::<Option<i64>, ()>(None),
            Err(_) => r is Err,
        },
        r matches Ok(Some(n)) ==> int_value(pair_value(fields@, key.spec_bytes())) == Ok::<Option<int>, ()>(Some(n as int)),
{
    let mut i: usize = 0;
    assert(fields@.subrange(0, fields@.len() as int) =~= fields@);
    while i < fields.len()
        invariant
            i <= fields@.len(),
            pair_value(fields@, key.spec_bytes()) == pair_value(fields@.subrange(i as int, fields@.len() as int), key.spec_bytes()),
        decreases fields@.len() - i,
    {
        let ghost rest = fields@.subrange(i as int, fields@.len() as int);
        assert(rest.drop_first() =~= fields@.subrange(i + 1, fields@.len() as int));
        let (name, value) = fields[i];
        if bytes_eq(name.as_bytes(), key.as_bytes()) {
            return match parse_i64(value.as_bytes()) {
                Ok(n) => Ok(Some(n)),
                Err(_) => Err(()),
            };
        }
        i = i + 1;
    }
    Ok(None)
}

/// What the parameters in the JSON text `s` are: the stream count, reverse
/// mode, block size and the test timeout in seconds, or why they are refused.
/// Checked in order: the JSON; `tcp`, which must be `true`; `bidirectional`,
/// which must not be `true`; `parallel` (default 1); `len` (default 128 KiB);
/// `time` (default 10) and `omit` (default 0); then `reverse` (default false).
pub open spec fn parameters_spec(s: Seq<u8>) -> Result<(int, bool, int, int), ParamError> {
    match object_fields(s) {
        None => Err(ParamError::InvalidJson),
        Some(f) => {
            let v = |k: &str| field_value(s, f, k.spec_bytes());
            match bool_value(v("tcp")) {
                Err(_) => Err(ParamError::NotBoolean(Param::Tcp)),
                Ok(tcp) => if tcp != Some(true) {
                    Err(ParamError::NotTcp)
                } else {
                    match bool_value(v("bidirectional")) {
                        Err(_) => Err(ParamError::NotBoolean(Param::Bidirectional)),
                        Ok(bidir) => if bidir == Some(true) {
                            Err(ParamError::Bidirectional)
                        } else {
                            match int_value(v("parallel")) {
                                Err(_) => Err(ParamError::NotInteger(Param::Parallel)),
                                Ok(p) => {
                                    let streams = match p { Some(n) => n, None => 1 };
                                    if streams < 1 || streams > MAX_STREAMS {
                                        Err(ParamError::InvalidStreams)
                                    } else {
                                        match int_value(v("len")) {
                                            Err(_) => Err(ParamError::NotInteger(Param::Len)),
                                            Ok(l) => {
                                                let block = match l { Some(n) => n, None => 131072 };
                                                if block < 1 {
                                                    Err(ParamError::InvalidBlockSize)
                                                } else {
                                                    match int_value(v("time")) {
                                                        Err(_) => Err(ParamError::NotInteger(Param::Time)),
                                                        Ok(t) => match int_value(v("omit")) {
                                                            Err(_) => Err(ParamError::NotInteger(Param::Omit)),
                                                            Ok(o) => {
                                                                let time = match t { Some(n) => n, None => 10 };
                                                                let omit = match o { Some(n) => n, None => 0 };
                                                                if !(time >= 0 && omit >= 0 && time + omit <= MAX_TEST_SECONDS) {
                                                                    Err(ParamError::InvalidDuration)
                                                                } else {
                                                                    match bool_value(v("reverse")) {
                                                                        Err(_) => Err(ParamError::NotBoolean(Param::Reverse)),
                                                                        Ok(r) => Ok((
                                                                            streams,
                                                                            match r { Some(b) => b, None => false },
                                                                            if block < 1024 { 1024 } else if block > 1048576 { 1048576 } else { block },
                                                                            if time + omit + 30 > 120 { time + omit + 30 } else { 120 },
                                                                        )),
                                                                    }
                                                                }
                                                            },
                                                        },
                                                    }
                                                }
                                            },
                                        }
                                    }
                                },
                            }
                        },
                    }
                },
            }
        },
    }
}

proof fn lemma_pair_field(s: Seq<u8>, r: Seq<(&str, &str)>, f: Seq<(int, int, int, int)>, key: Seq<u8>)
    requires
        fields_match(s, r, f),
    ensures
        pair_value(r, key) == field_value(s, f, key),
    decreases f.len(),
{
    if f.len() > 0 {
        assert(fields_match(s, r.drop_first(), f.drop_first())) by {
            assert forall|i: int| 0 <= i < r.drop_first().len() implies {
                &&& (#[trigger] r.drop_first()[i]).0.spec_bytes() == s.subrange(f.drop_first()[i].0, f.drop_first()[i].1)
                &&& r.drop_first()[i].1.spec_bytes() == s.subrange(f.drop_first()[i].2, f.drop_first()[i].3)
            } by {
                assert(r.drop_first()[i] == r[i + 1]);
            }
        }
        assert(r[0].0.spec_bytes() == s.subrange(f[0].0, f[0].1));
        lemma_pair_field(s, r.drop_first(), f.drop_first(), key);
    }
}

/// Reads the test parameters from the client's JSON, as [`parameters_spec`]
/// states. The block size is clamped to 1 KiB..1 MiB, and the test timeout
/// is the test time plus omitted time plus 30 seconds, at least 120 seconds.
pub fn parse_parameters(json: &str) -> (r: Result<Parameters, ParamError>)
    ensures
        match parameters_spec(json.spec_bytes()) {
            Ok((streams, reverse, block, secs)) => r matches Ok(p) && p.streams == streams && p.reverse == reverse
                && p.block_size == block && p.test_timeout == secs_duration(secs as u64),
            Err(e) => r == Err::<Parameters, ParamError>(e),
        },
{
    let fields = match parse_object_fields(json) {
        Ok(f) => f,
        Err(_) => {
            return Err(ParamError::InvalidJson);
        },
    };
    let ghost s = json.spec_bytes();
    let ghost f = object_fields(s).unwrap();
    proof {
        lemma_pair_field(s, fields@, f, "tcp".spec_bytes());
        lemma_pair_field(s, fields@, f, "bidirectional".spec_bytes());
        lemma_pair_field(s, fields@, f, "parallel".spec_bytes());
        lemma_pair_field(s, fields@, f, "len".spec_bytes());
        lemma_pair_field(s, fields@, f, "time".spec_bytes());
        lemma_pair_field(s, fields@, f, "omit".spec_bytes());
        lemma_pair_field(s, fields@, f, "reverse".spec_bytes());
    }
    let fs = fields.as_slice();
    let tcp = match json_bool(fs, "tcp") {
        Ok(v) => v,
        Err(_) => {
            return Err(ParamError::NotBoolean(Param::Tcp));
        },
    };
    if tcp != Some(true) {
        return Err(ParamError::NotTcp);
    }
    let bidir = match json_bool(fs, "bidirectional") {
        Ok(v) => v,
        Err(_) => {
            return Err(ParamError::NotBoolean(Param::Bidirectional));
        },
    };
    if bidir == Some(true) {
        return Err(ParamError::Bidirectional);
    }
    let streams = match json_number(fs, "parallel") {
        Ok(Some(n)) => n,
        Ok(None) => 1,
        Err(_) => {
            return Err(ParamError::NotInteger(Param::Parallel));
        },
    };
    if streams < 1 || streams > MAX_STREAMS as i64 {
        return Err(ParamError::InvalidStreams);
    }
    let block = match json_number(fs, "len") {
        Ok(Some(n)) => n,
        Ok(None) => 131072,
        Err(_) => {
            return Err(ParamError::NotInteger(Param::Len));
        },
    };
    if block < 1 {
        return Err(ParamError::InvalidBlockSize);
    }
    let time = match json_number(fs, "time") {
        Ok(Some(n)) => n,
        Ok(None) => 10,
        Err(_) => {
            return Err(ParamError::NotInteger(Param::Time));
        },
    };
    let omit = match json_number(fs, "omit") {
        Ok(Some(n)) => n,
        Ok(None) => 0,
        Err(_) => {
            return Err(ParamError::NotInteger(Param::Omit));
        },
    };
    let duration = match time.checked_add(omit) {
        Some(d) => d,
        None => {
            return Err(ParamError::InvalidDuration);
        },
    };
    if !(time >= 0 && omit >= 0 && duration <= MAX_TEST_SECONDS) {
        return Err(ParamError::InvalidDuration);
    }
    let reverse = match json_bool(fs, "reverse") {
        Ok(Some(b)) => b,
        Ok(None) => false,
        Err(_) => {
            return Err(ParamError::NotBoolean(Param::Reverse));
        },
    };
    let block_size = if block < 1024 {
        1024
    } else if block > 1048576 {
        1048576
    } else {
        block
    };
    let secs: u64 = if duration as u64 + 30 > 120 {
        duration as u64 + 30
    } else {
        120
    };
    Ok(Parameters {
        streams: streams as usize,
        reverse,
        block_size: block_size as usize,
        test_timeout: duration_from_secs(secs),
    })
}


/// Accepted parameters always ask for 1 to [`MAX_STREAMS`] streams, blocks
/// of 1 KiB to 1 MiB, and a timeout of 120 seconds to one day and 30 seconds.
pub proof fn lemma_parameters_bounds(s: Seq<u8>)
    ensures
        parameters_spec(s) matches Ok((streams, reverse, block, secs)) ==> 1 <= streams <= MAX_STREAMS && 1024
            <= block <= 1048576 && 120 <= secs <= MAX_TEST_SECONDS + 30,
{
}

} // verus!
