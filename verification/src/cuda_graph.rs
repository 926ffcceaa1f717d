//! CUDA Graph decode bucket planning.
//!
//! A decode round can be captured and replayed as a graph only for batch sizes
//! that match a configured bucket, and only while its masks and its KV append
//! do not change shape. This module owns bucket parsing, per-round decisions,
//! replay bookkeeping and miss counters.
use crate::settings;
use crate::stats::{self, EngineStats};
use crate::tensors;
use crate::text;
use candle_core::{DType, Device};
use vstd::prelude::*;
use vstd::string::*;

verus! {

/// Settings of graph decode.
#[derive(Debug, Clone)]
pub struct CudaGraphDecodePlanner {
    pub enabled: bool,
    pub fixed_width_decode: bool,
    pub capture_runtime: bool,
    /// Capture the greedy argmax inside the decode graph.
    pub capture_sampling: bool,
    /// Replays per captured graph before it is captured again; 0 for no limit.
    pub max_replays: u32,
    pub buckets: Vec<usize>,
}

/// Whether a round can run as a graph.
#[derive(Debug, Clone, Copy, PartialEq, Eq, Structural)]
pub enum CudaGraphDecodeDecision {
    Disabled,
    Miss(CudaGraphDecodeMiss),
    BlockedDynamicKv { bucket: usize },
    Ready { bucket: usize },
}

/// Why a round cannot run as a graph.
#[derive(Debug, Clone, Copy, PartialEq, Eq, Structural)]
pub enum CudaGraphDecodeMiss {
    UnsupportedDevice,
    NoBucket,
    AttentionMask,
    PagedAttention,
}

/// What a captured graph is good for.
#[derive(Debug, Clone, Copy, PartialEq, Eq, Structural)]
pub struct CudaGraphDecodeKey {
    pub bucket: usize,
    pub fixed_cache_width: usize,
    pub has_mask: bool,
}

/// Raw values of the variables that configure graph decode.
pub struct CudaGraphEnv<'a> {
    pub enabled: Option<&'a str>,
    pub buckets: Option<&'a str>,
    pub fixed_width: Option<&'a str>,
    pub capture: Option<&'a str>,
    pub capture_sampling: Option<&'a str>,
    pub max_replays: Option<&'a str>,
}

/// The comma-separated parts of a text.
pub open spec fn comma_parts(text: Seq<char>) -> Seq<Seq<char>>
    decreases text.len(),
{
    if text.len() == 0 {
        seq![Seq::empty()]
    } else {
        let head = comma_parts(text.drop_last());
        if text.last() == ',' {
            head.push(Seq::empty())
        } else {
            head.drop_last().push(head.last().push(text.last()))
        }
    }
}

/// The bucket that a part names: a positive number, with white space around it or not.
pub open spec fn part_bucket(part: Seq<char>) -> Option<int> {
    match text::parsed_upto(text::trimmed(part), usize::MAX as int) {
        Some(value) => if value > 0 {
            Some(value)
        } else {
            None
        },
        None => None,
    }
}

/// Some part names the bucket `value`.
pub open spec fn named_in(parts: Seq<Seq<char>>, value: int) -> bool {
    exists|i: int| 0 <= i < parts.len() && #[trigger] part_bucket(parts[i]) == Some(value)
}

/// Some part names a bucket.
pub open spec fn names_any(parts: Seq<Seq<char>>) -> bool {
    exists|i: int| 0 <= i < parts.len() && (#[trigger] part_bucket(parts[i])) is Some
}

/// The buckets used where none is configured.
pub open spec fn is_default_bucket(value: int) -> bool {
    value == 1 || value == 2 || value == 4 || value == 8 || value == 16 || value == 32 || value
        == 64
}

/// The value is a bucket under this setting.
pub open spec fn is_bucket(raw: Option<Seq<char>>, value: int) -> bool {
    match raw {
        Some(text) => if names_any(comma_parts(text)) {
            named_in(comma_parts(text), value)
        } else {
            is_default_bucket(value)
        },
        None => is_default_bucket(value),
    }
}

/// Strictly increasing.
pub open spec fn increasing(values: Seq<usize>) -> bool {
    forall|i: int, j: int| 0 <= i < j < values.len() ==> #[trigger] values[i] < #[trigger] values[j]
}

/// Puts a value into an increasing list, unless it is there.
fn insert_increasing(values: &mut Vec<usize>, value: usize)
    requires
        increasing(old(values)@),
    ensures
        increasing(final(values)@),
        forall|v: usize| #[trigger]
            final(values)@.contains(v) <==> old(values)@.contains(v) || v == value,
{
    let ghost before = values@;
    let mut at: usize = 0;
    while at < values.len() && values[at] < value
        invariant
            at <= values@.len(),
            values@ == before,
            forall|j: int| 0 <= j < at ==> #[trigger] values@[j] < value,
        decreases values@.len() - at,
    {
        at = at + 1;
    }
    if at < values.len() && values[at] == value {
        assert(before.contains(value)) by {
            assert(before[at as int] == value);
        }
        return;
    }
    values.insert(at, value);
    assert(values@ =~= before.insert(at as int, value));
    assert forall|v: usize| #[trigger] values@.contains(v) <==> before.contains(v) || v == value by {
        if values@.contains(v) && v != value {
            let k = values@.index_of(v);
            if k < at {
                assert(before[k] == v);
            } else {
                assert(k > at);
                assert(before[k - 1] == v);
            }
        }
        if before.contains(v) {
            let k = before.index_of(v);
            if k < at {
                assert(values@[k] == v);
            } else {
                assert(values@[k + 1] == v);
            }
        }
        assert(values@[at as int] == value);
    }
}

proof fn lemma_named_push(parts: Seq<Seq<char>>, part: Seq<char>)
    ensures
        forall|value: int| #[trigger]
            named_in(parts.push(part), value) <==> named_in(parts, value) || part_bucket(part)
                == Some(value),
{
    assert forall|value: int| #[trigger] named_in(parts.push(part), value) <==> named_in(
        parts,
        value,
    ) || part_bucket(part) == Some(value) by {
        let all = parts.push(part);
        if named_in(parts, value) {
            let i = choose|i: int|
                0 <= i < parts.len() && #[trigger] part_bucket(parts[i]) == Some(value);
            assert(part_bucket(all[i]) == Some(value));
        }
        if part_bucket(part) == Some(value) {
            assert(part_bucket(all[parts.len() as int]) == Some(value));
        }
        if named_in(all, value) {
            let i = choose|i: int|
                0 <= i < all.len() && #[trigger] part_bucket(all[i]) == Some(value);
            if i < parts.len() {
                assert(part_bucket(parts[i]) == Some(value));
            }
        }
    }
}

/// Adds the bucket that the characters between two positions name, if they name one.
fn add_part(buckets: &mut Vec<usize>, chars: &[char], from: usize, to: usize)
    requires
        increasing(old(buckets)@),
        from <= to <= chars@.len(),
    ensures
        increasing(final(buckets)@),
        forall|v: usize| #[trigger]
            final(buckets)@.contains(v) <==> old(buckets)@.contains(v) || part_bucket(
                chars@.subrange(from as int, to as int),
            ) == Some(v as int),
{
    let (start, end) = text::trim_range(chars, from, to);
    match text::parse_range(chars, start, end) {
        Some(value) => {
            if value > 0 && value <= usize::MAX as u64 {
                insert_increasing(buckets, value as usize);
            }
        },
        None => {},
    }
}

/// Parses the configured batch buckets: the positive numbers among the comma-separated parts,
/// in increasing order; the defaults where there are none.
pub fn parse_buckets(raw: Option<&str>) -> (result: Vec<usize>)
    ensures
        increasing(result@),
        result@.len() > 0,
        forall|v: usize| #[trigger]
            result@.contains(v) <==> is_bucket(settings::text_of(raw), v as int),
{
    let mut buckets: Vec<usize> = Vec::new();
    if let Some(given) = raw {
        let chars = text::chars_of(given);
        let n: usize = chars.len();
        let mut start: usize = 0;
        let mut i: usize = 0;
        let ghost mut done: Seq<Seq<char>> = Seq::empty();
        assert(chars@.subrange(0, 0) =~= Seq::empty());
        assert(given@.take(0).len() == 0);
        assert(comma_parts(given@.take(0)) =~= done.push(chars@.subrange(0, 0)));
        while i < n
            invariant
                start <= i <= n,
                n == chars@.len(),
                chars@ == given@,
                comma_parts(given@.take(i as int)) == done.push(
                    chars@.subrange(start as int, i as int),
                ),
                increasing(buckets@),
                forall|v: usize| #[trigger] buckets@.contains(v) <==> named_in(done, v as int),
            decreases n - i,
        {
            let ghost part = chars@.subrange(start as int, i as int);
            assert(given@.take(i + 1).drop_last() =~= given@.take(i as int));
            assert(done.push(part).drop_last() =~= done);
            if chars[i] == ',' {
                add_part(&mut buckets, chars.as_slice(), start, i);
                proof {
                    lemma_named_push(done, part);
                    done = done.push(part);
                }
                start = i + 1;
                assert(chars@.subrange(start as int, i + 1) =~= Seq::empty());
            } else {
                assert(chars@.subrange(start as int, i + 1) =~= part.push(chars@[i as int]));
            }
            i = i + 1;
        }
        add_part(&mut buckets, chars.as_slice(), start, n);
        proof {
            lemma_named_push(done, chars@.subrange(start as int, n as int));
        }
        assert(given@.take(n as int) =~= given@);
        assert(forall|v: usize| #[trigger]
            buckets@.contains(v) <==> named_in(comma_parts(given@), v as int));
        proof {
            let parts = comma_parts(given@);
            if buckets@.len() > 0 {
                assert(buckets@.contains(buckets@[0]));
                assert(named_in(parts, buckets@[0] as int));
                let k = choose|k: int|
                    0 <= k < parts.len() && #[trigger] part_bucket(parts[k]) == Some(
                        buckets@[0] as int,
                    );
                assert(part_bucket(parts[k]) is Some);
            }
            if names_any(parts) {
                let k = choose|k: int|
                    0 <= k < parts.len() && (#[trigger] part_bucket(parts[k])) is Some;
                let value = part_bucket(parts[k])->0;
                assert(0 < value <= usize::MAX);
                assert(named_in(parts, (value as usize) as int));
                assert(buckets@.contains(value as usize));
            }
        }
    }
    if buckets.len() == 0 {
        buckets.push(1);
        buckets.push(2);
        buckets.push(4);
        buckets.push(8);
        buckets.push(16);
        buckets.push(32);
        buckets.push(64);
        assert(buckets@ =~= seq![1usize, 2, 4, 8, 16, 32, 64]);
        assert forall|v: usize| #[trigger] buckets@.contains(v) <==> is_default_bucket(v as int) by {
            assert(buckets@[0] == 1 && buckets@[1] == 2 && buckets@[2] == 4 && buckets@[3] == 8
                && buckets@[4] == 16 && buckets@[5] == 32 && buckets@[6] == 64);
        }
    }
    buckets
}

/// Numbers in decimal, with commas between them.
pub open spec fn joined(values: Seq<usize>) -> Seq<char>
    decreases values.len(),
{
    if values.len() == 0 {
        Seq::empty()
    } else if values.len() == 1 {
        text::decimal(values[0] as nat)
    } else {
        joined(values.drop_last()).push(',') + text::decimal(values.last() as nat)
    }
}

proof fn lemma_part_joins(head: Seq<char>, part: Seq<char>)
    requires
        forall|i: int| 0 <= i < part.len() ==> #[trigger] part[i] != ',',
    ensures
        comma_parts(head.push(',') + part) == comma_parts(head).push(part),
    decreases part.len(),
{
    let text = head.push(',') + part;
    if part.len() == 0 {
        assert(text.drop_last() =~= head);
        assert(part =~= Seq::empty());
    } else {
        let short = part.drop_last();
        assert(text.drop_last() =~= head.push(',') + short);
        assert(text.last() == part[part.len() - 1]);
        lemma_part_joins(head, short);
        assert(comma_parts(head).push(short).drop_last() =~= comma_parts(head));
        assert(short.push(part.last()) =~= part);
    }
}

proof fn lemma_plain_part(part: Seq<char>)
    requires
        forall|i: int| 0 <= i < part.len() ==> #[trigger] part[i] != ',',
    ensures
        comma_parts(part) == seq![part],
    decreases part.len(),
{
    if part.len() == 0 {
        assert(part =~= Seq::empty());
    } else {
        lemma_plain_part(part.drop_last());
        assert(part.last() == part[part.len() - 1]);
        assert(comma_parts(part.drop_last()).drop_last() =~= Seq::empty());
        assert(part.drop_last().push(part.last()) =~= part);
        assert(comma_parts(part) =~= seq![part]);
    }
}

proof fn lemma_joined_parts(values: Seq<usize>)
    requires
        values.len() > 0,
    ensures
        comma_parts(joined(values)) == values.map_values(|v: usize| text::decimal(v as nat)),
    decreases values.len(),
{
    let parts = values.map_values(|v: usize| text::decimal(v as nat));
    let last = text::decimal(values.last() as nat);
    text::law_decimal_reads_back(values.last() as nat);
    assert forall|i: int| 0 <= i < last.len() implies #[trigger] last[i] != ',' by {
        assert(text::is_digit(last[i]));
    }
    if values.len() == 1 {
        lemma_plain_part(last);
        assert(parts =~= seq![last]);
    } else {
        lemma_joined_parts(values.drop_last());
        lemma_part_joins(joined(values.drop_last()), last);
        assert(parts =~= values.drop_last().map_values(
            |v: usize| text::decimal(v as nat),
        ).push(last));
    }
}

proof fn lemma_decimal_names(value: usize)
    requires
        value > 0,
    ensures
        part_bucket(text::decimal(value as nat)) == Some(value as int),
{
    let digits = text::decimal(value as nat);
    text::law_decimal_reads_back(value as nat);
    assert(text::is_digit(digits[0]));
    assert(text::is_digit(digits[digits.len() - 1]));
    assert(text::trimmed_start(digits) == digits);
    assert(text::trimmed_end(digits) == digits);
}

proof fn lemma_increasing_is_unique(left: Seq<usize>, right: Seq<usize>)
    requires
        increasing(left),
        increasing(right),
        forall|v: usize| #[trigger] left.contains(v) <==> right.contains(v),
    ensures
        left == right,
    decreases left.len(),
{
    if left.len() == 0 {
        if right.len() > 0 {
            assert(right.contains(right[0]));
            assert(left.contains(right[0]));
        }
        assert(left =~= right);
    } else {
        assert(left.contains(left.last()));
        assert(right.len() > 0);
        assert(right.contains(right.last()));
        assert(left.contains(right.last()));
        let i = left.index_of(right.last());
        let j = right.index_of(left.last());
        assert(left[i] == right.last() && right[j] == left.last());
        assert(left.last() == right.last()) by {
            if i < left.len() - 1 {
                assert(left[i] < left[left.len() - 1]);
            }
            if j < right.len() - 1 {
                assert(right[j] < right[right.len() - 1]);
            }
        }
        let a = left.drop_last();
        let b = right.drop_last();
        assert forall|v: usize| #[trigger] a.contains(v) <==> b.contains(v) by {
            if a.contains(v) {
                let k = a.index_of(v);
                assert(left[k] == v && left[k] < left[left.len() - 1]);
                assert(left.contains(v));
                let m = right.index_of(v);
                assert(right[m] == v && m < right.len() - 1);
                assert(b[m] == v);
            }
            if b.contains(v) {
                let k = b.index_of(v);
                assert(right[k] == v && right[k] < right[right.len() - 1]);
                assert(right.contains(v));
                assert(left.contains(v));
                let m = left.index_of(v);
                assert(left[m] == v && m < left.len() - 1);
                assert(a[m] == v);
            }
        }
        lemma_increasing_is_unique(a, b);
        assert(left =~= a.push(left.last()));
        assert(right =~= b.push(right.last()));
    }
}

/// Buckets that were parsed from a setting, joined to text and parsed again, are the same
/// buckets.
pub proof fn law_buckets_read_back(raw: Option<Seq<char>>, buckets: Seq<usize>, again: Seq<usize>)
    requires
        increasing(buckets),
        buckets.len() > 0,
        forall|v: usize| #[trigger] buckets.contains(v) <==> is_bucket(raw, v as int),
        increasing(again),
        forall|v: usize| #[trigger]
            again.contains(v) <==> is_bucket(Some(joined(buckets)), v as int),
    ensures
        again == buckets,
{
    let parts = comma_parts(joined(buckets));
    lemma_joined_parts(buckets);
    assert forall|i: int| 0 <= i < buckets.len() implies #[trigger] part_bucket(parts[i]) == Some(
        buckets[i] as int,
    ) by {
        assert(buckets.contains(buckets[i]));
        assert(is_bucket(raw, buckets[i] as int));
        lemma_decimal_names(buckets[i]);
    }
    assert(part_bucket(parts[0]) is Some);
    assert forall|v: usize| #[trigger] buckets.contains(v) <==> again.contains(v) by {
        if buckets.contains(v) {
            let i = buckets.index_of(v);
            assert(part_bucket(parts[i]) == Some(v as int));
            assert(named_in(parts, v as int));
        }
        if again.contains(v) {
            assert(named_in(parts, v as int));
            let i = choose|i: int|
                0 <= i < parts.len() && #[trigger] part_bucket(parts[i]) == Some(v as int);
            assert(buckets[i] == v);
        }
    }
    lemma_increasing_is_unique(buckets, again);
}

/// A mask blocks capture unless its width is fixed.
pub fn mask_blocks_capture(has_attention_mask: bool, fixed_width_mask: bool) -> (result: bool)
    ensures
        result == (has_attention_mask && !fixed_width_mask),
{
    has_attention_mask && !fixed_width_mask
}

impl CudaGraphDecodePlanner {
    /// These are the settings that the variables give. Everything depends on graph decode being
    /// enabled, and captured sampling on capture.
    pub open spec fn follows(&self, env: CudaGraphEnv<'_>) -> bool {
        &&& self.enabled == settings::flag(settings::text_of(env.enabled), false)
        &&& self.fixed_width_decode == (self.enabled && settings::flag(
            settings::text_of(env.fixed_width),
            true,
        ))
        &&& self.capture_runtime == (self.enabled && settings::flag(
            settings::text_of(env.capture),
            false,
        ))
        &&& self.capture_sampling == (self.capture_runtime && settings::flag(
            settings::text_of(env.capture_sampling),
            false,
        ))
        &&& self.max_replays == settings::count(
            settings::text_of(env.max_replays),
            u32::MAX as int,
        )
        &&& increasing(self.buckets@)
        &&& forall|v: usize| #[trigger]
            self.buckets@.contains(v) <==> is_bucket(settings::text_of(env.buckets), v as int)
    }

    pub fn from_env(env: &CudaGraphEnv<'_>) -> (result: Self)
        ensures
            result.follows(*env),
    {
        let enabled = settings::env_flag(env.enabled);
        let buckets = parse_buckets(env.buckets);
        let fixed_width_decode = enabled && settings::env_flag_default(env.fixed_width, true);
        let capture_runtime = enabled && settings::env_flag_default(env.capture, false);
        let capture_sampling = capture_runtime && settings::env_flag_default(
            env.capture_sampling,
            false,
        );
        let max_replays: u32 = settings::env_count(env.max_replays);
        CudaGraphDecodePlanner {
            enabled,
            fixed_width_decode,
            capture_runtime,
            capture_sampling,
            max_replays,
            buckets,
        }
    }

    pub fn max_replays(&self) -> (result: u32)
        ensures
            result == self.max_replays,
    {
        self.max_replays
    }

    pub fn enabled(&self) -> (result: bool)
        ensures
            result == self.enabled,
    {
        self.enabled
    }

    /// The buckets as comma-separated text.
    pub fn bucket_csv(&self) -> (result: String)
        ensures
            result@ == joined(self.buckets@),
    {
        let mut out = String::new();
        let mut i: usize = 0;
        while i < self.buckets.len()
            invariant
                i <= self.buckets@.len(),
                out@ == joined(self.buckets@.take(i as int)),
            decreases self.buckets@.len() - i,
        {
            assert(self.buckets@.take(i + 1).drop_last() =~= self.buckets@.take(i as int));
            if i > 0 {
                proof {
                    reveal_strlit(",");
                }
                out.append(",");
                assert(out@ =~= joined(self.buckets@.take(i as int)).push(','));
            }
            text::push_decimal(&mut out, self.buckets[i] as u64);
            assert(out@ =~= joined(self.buckets@.take(i + 1)));
            i = i + 1;
        }
        assert(self.buckets@.take(i as int) =~= self.buckets@);
        out
    }

    /// A batch of this size decodes at a fixed width: that is switched on, and the batch can use a
    /// graph.
    pub open spec fn fixed_width_for(&self, batch_size: usize) -> bool {
        self.fixed_width_decode && self.buckets@.contains(batch_size)
    }

    pub fn fixed_width_decode(&self) -> (result: bool)
        ensures
            result == self.fixed_width_decode,
    {
        self.fixed_width_decode
    }

    /// Fixed-width metadata pays for itself only where the batch can use a graph.
    pub fn fixed_width_decode_for(&self, batch_size: usize) -> (result: bool)
        ensures
            result == self.fixed_width_for(batch_size),
    {
        self.fixed_width_decode && self.bucket_for(batch_size).is_some()
    }

    pub fn capture_runtime(&self) -> (result: bool)
        ensures
            result == self.capture_runtime,
    {
        self.capture_runtime
    }

    pub fn capture_sampling(&self) -> (result: bool)
        ensures
            result == self.capture_sampling,
    {
        self.capture_sampling
    }

    /// Tokens that the argmax inside a captured graph writes. `written` is how many the capture
    /// reported, if it worked; none at all counts as no capture.
    pub fn captured_sample_batch(&self, written: Option<usize>) -> (result: Option<usize>)
        ensures
            result == if self.capture_sampling && written != Some(0usize) {
                written
            } else {
                None
            },
    {
        if !self.capture_sampling {
            return None;
        }
        match written {
            Some(count) => if count == 0 {
                None
            } else {
                Some(count)
            },
            None => None,
        }
    }

    /// What a round of `batch_size` rows can do. The first obstacle decides: graph decode is
    /// off, the device, the batch size, paged attention, a mask of changing width, or an append
    /// whose place is not on the device.
    pub open spec fn decision(
        &self,
        batch_size: usize,
        on_cuda: bool,
        is_bf16: bool,
        has_attention_mask: bool,
        fixed_width_mask: bool,
        has_paged_attention: bool,
        graph_safe_kv_append: bool,
    ) -> CudaGraphDecodeDecision {
        if !self.enabled {
            CudaGraphDecodeDecision::Disabled
        } else if !on_cuda || !is_bf16 {
            CudaGraphDecodeDecision::Miss(CudaGraphDecodeMiss::UnsupportedDevice)
        } else if !self.buckets@.contains(batch_size) {
            CudaGraphDecodeDecision::Miss(CudaGraphDecodeMiss::NoBucket)
        } else if has_paged_attention {
            CudaGraphDecodeDecision::Miss(CudaGraphDecodeMiss::PagedAttention)
        } else if has_attention_mask && !fixed_width_mask {
            CudaGraphDecodeDecision::Miss(CudaGraphDecodeMiss::AttentionMask)
        } else if graph_safe_kv_append {
            CudaGraphDecodeDecision::Ready { bucket: batch_size }
        } else {
            CudaGraphDecodeDecision::BlockedDynamicKv { bucket: batch_size }
        }
    }

    pub fn classify_round(
        &self,
        batch_size: usize,
        device: &Device,
        dtype: DType,
        has_attention_mask: bool,
        fixed_width_mask: bool,
        has_paged_attention: bool,
        graph_safe_kv_append: bool,
    ) -> (result: CudaGraphDecodeDecision)
        ensures
            result == self.decision(
                batch_size,
                tensors::device_is_cuda(*device),
                tensors::dtype_is_bf16(dtype),
                has_attention_mask,
                fixed_width_mask,
                has_paged_attention,
                graph_safe_kv_append,
            ),
    {
        self.classify(
            batch_size,
            device.is_cuda(),
            tensors::is_bf16(dtype),
            has_attention_mask,
            fixed_width_mask,
            has_paged_attention,
            graph_safe_kv_append,
        )
    }

    /// [`Self::classify_round`] with the device and the element type already looked at.
    pub fn classify(
        &self,
        batch_size: usize,
        on_cuda: bool,
        is_bf16: bool,
        has_attention_mask: bool,
        fixed_width_mask: bool,
        has_paged_attention: bool,
        graph_safe_kv_append: bool,
    ) -> (result: CudaGraphDecodeDecision)
        ensures
            result == self.decision(
                batch_size,
                on_cuda,
                is_bf16,
                has_attention_mask,
                fixed_width_mask,
                has_paged_attention,
                graph_safe_kv_append,
            ),
    {
        if !self.enabled {
            return CudaGraphDecodeDecision::Disabled;
        }
        if !on_cuda || !is_bf16 {
            return CudaGraphDecodeDecision::Miss(CudaGraphDecodeMiss::UnsupportedDevice);
        }
        let bucket: usize = match self.bucket_for(batch_size) {
            Some(bucket) => bucket,
            None => {
                return CudaGraphDecodeDecision::Miss(CudaGraphDecodeMiss::NoBucket);
            },
        };
        if has_paged_attention {
            return CudaGraphDecodeDecision::Miss(CudaGraphDecodeMiss::PagedAttention);
        }
        if mask_blocks_capture(has_attention_mask, fixed_width_mask) {
            return CudaGraphDecodeDecision::Miss(CudaGraphDecodeMiss::AttentionMask);
        }
        if graph_safe_kv_append {
            return CudaGraphDecodeDecision::Ready { bucket };
        }
        CudaGraphDecodeDecision::BlockedDynamicKv { bucket }
    }

    fn bucket_for(&self, batch_size: usize) -> (result: Option<usize>)
        ensures
            result == if self.buckets@.contains(batch_size) {
                Some(batch_size)
            } else {
                None
            },
    {
        let mut i: usize = 0;
        while i < self.buckets.len()
            invariant
                i <= self.buckets@.len(),
                forall|j: int| 0 <= j < i ==> #[trigger] self.buckets@[j] != batch_size,
            decreases self.buckets@.len() - i,
        {
            if self.buckets[i] == batch_size {
                assert(self.buckets@[i as int] == batch_size);
                return Some(batch_size);
            }
            i = i + 1;
        }
        None
    }
}

/// The counters after a round with this decision and `active_rows` live rows.
pub open spec fn recorded(
    stats: EngineStats,
    decision: CudaGraphDecodeDecision,
    active_rows: u64,
) -> EngineStats {
    let counted = EngineStats {
        total_cuda_graph_decode_rounds: stats.total_cuda_graph_decode_rounds.plus(1),
        ..stats
    };
    let fallen_back = EngineStats {
        total_cuda_graph_decode_fallbacks: stats.total_cuda_graph_decode_fallbacks.plus(1),
        total_cuda_graph_decode_fallback_tokens: stats.total_cuda_graph_decode_fallback_tokens.plus(
            active_rows as int,
        ),
        ..counted
    };
    match decision {
        CudaGraphDecodeDecision::Disabled => stats,
        CudaGraphDecodeDecision::BlockedDynamicKv { .. } => EngineStats {
            total_cuda_graph_decode_eligible_rounds:
                stats.total_cuda_graph_decode_eligible_rounds.plus(1),
            total_cuda_graph_decode_miss_dynamic_kv:
                stats.total_cuda_graph_decode_miss_dynamic_kv.plus(1),
            ..fallen_back
        },
        CudaGraphDecodeDecision::Ready { .. } => EngineStats {
            total_cuda_graph_decode_eligible_rounds:
                stats.total_cuda_graph_decode_eligible_rounds.plus(1),
            ..counted
        },
        CudaGraphDecodeDecision::Miss(CudaGraphDecodeMiss::UnsupportedDevice) => EngineStats {
            total_cuda_graph_decode_miss_device: stats.total_cuda_graph_decode_miss_device.plus(1),
            ..fallen_back
        },
        CudaGraphDecodeDecision::Miss(CudaGraphDecodeMiss::NoBucket) => EngineStats {
            total_cuda_graph_decode_miss_no_bucket:
                stats.total_cuda_graph_decode_miss_no_bucket.plus(1),
            ..fallen_back
        },
        CudaGraphDecodeDecision::Miss(CudaGraphDecodeMiss::AttentionMask) => EngineStats {
            total_cuda_graph_decode_miss_mask: stats.total_cuda_graph_decode_miss_mask.plus(1),
            ..fallen_back
        },
        CudaGraphDecodeDecision::Miss(CudaGraphDecodeMiss::PagedAttention) => EngineStats {
            total_cuda_graph_decode_miss_paged_attention:
                stats.total_cuda_graph_decode_miss_paged_attention.plus(1),
            ..fallen_back
        },
    }
}

/// Counts a round.
pub fn record_decision(
    stats: &mut EngineStats,
    decision: CudaGraphDecodeDecision,
    active_rows: u64,
)
    ensures
        *final(stats) == recorded(*old(stats), decision, active_rows),
{
    match decision {
        CudaGraphDecodeDecision::Disabled => {},
        CudaGraphDecodeDecision::BlockedDynamicKv { .. } => {
            stats.total_cuda_graph_decode_rounds.fetch_add(1);
            stats.total_cuda_graph_decode_eligible_rounds.fetch_add(1);
            record_fallback(stats, active_rows);
            stats.total_cuda_graph_decode_miss_dynamic_kv.fetch_add(1);
        },
        CudaGraphDecodeDecision::Ready { .. } => {
            stats.total_cuda_graph_decode_rounds.fetch_add(1);
            stats.total_cuda_graph_decode_eligible_rounds.fetch_add(1);
        },
        CudaGraphDecodeDecision::Miss(reason) => {
            stats.total_cuda_graph_decode_rounds.fetch_add(1);
            record_fallback(stats, active_rows);
            match reason {
                CudaGraphDecodeMiss::UnsupportedDevice => {
                    stats.total_cuda_graph_decode_miss_device.fetch_add(1);
                },
                CudaGraphDecodeMiss::NoBucket => {
                    stats.total_cuda_graph_decode_miss_no_bucket.fetch_add(1);
                },
                CudaGraphDecodeMiss::AttentionMask => {
                    stats.total_cuda_graph_decode_miss_mask.fetch_add(1);
                },
                CudaGraphDecodeMiss::PagedAttention => {
                    stats.total_cuda_graph_decode_miss_paged_attention.fetch_add(1);
                },
            }
        },
    }
}

/// Counts a round that ran without a graph.
pub fn record_fallback(stats: &mut EngineStats, active_rows: u64)
    ensures
        *final(stats) == (EngineStats {
            total_cuda_graph_decode_fallbacks: old(stats).total_cuda_graph_decode_fallbacks.plus(1),
            total_cuda_graph_decode_fallback_tokens: old(
                stats,
            ).total_cuda_graph_decode_fallback_tokens.plus(active_rows as int),
            ..*old(stats)
        }),
{
    stats.total_cuda_graph_decode_fallbacks.fetch_add(1);
    stats.total_cuda_graph_decode_fallback_tokens.fetch_add(active_rows);
}

/// Counts a round that replayed a graph.
pub fn record_replay(stats: &mut EngineStats, active_rows: u64)
    ensures
        *final(stats) == (EngineStats {
            total_cuda_graph_decode_replay_calls: old(
                stats,
            ).total_cuda_graph_decode_replay_calls.plus(1),
            total_cuda_graph_decode_replay_tokens: old(
                stats,
            ).total_cuda_graph_decode_replay_tokens.plus(active_rows as int),
            ..*old(stats)
        }),
{
    stats.total_cuda_graph_decode_replay_calls.fetch_add(1);
    stats.total_cuda_graph_decode_replay_tokens.fetch_add(active_rows);
}

/// A captured graph as far as planning goes; the graph itself lives with the device.
#[derive(Debug, Clone, Copy, PartialEq, Eq, Structural)]
pub struct CudaGraphDecodeEntry {
    pub key: CudaGraphDecodeKey,
    /// Tokens that the captured argmax writes, if sampling was captured.
    pub captured_sample_batch: Option<usize>,
    /// Replays since capture.
    pub replays_used: u32,
}

/// Captured graphs, and keys that failed once and are not tried again.
pub struct CudaGraphCache {
    pub workspace_generation: u64,
    pub entries: Vec<CudaGraphDecodeEntry>,
    pub poisoned: Vec<CudaGraphDecodeKey>,
}

/// How to run the forward pass of a fixed-width round.
#[derive(Debug, Clone, Copy, PartialEq, Eq, Structural)]
pub enum CudaGraphRound {
    /// Without a graph.
    Eager,
    /// Launch the captured graph of this key.
    Replay { key: CudaGraphDecodeKey, captured_sample_batch: Option<usize> },
    /// Capture a graph under this key.
    Capture { key: CudaGraphDecodeKey },
}

/// The entries by key.
pub open spec fn entries_map(entries: Seq<CudaGraphDecodeEntry>) -> Map<
    CudaGraphDecodeKey,
    CudaGraphDecodeEntry,
>
    decreases entries.len(),
{
    if entries.len() == 0 {
        Map::empty()
    } else {
        entries_map(entries.drop_last()).insert(entries.last().key, entries.last())
    }
}

/// The graphs that are kept after one of them was replayed: not one that failed, nor one that
/// reached the limit.
pub open spec fn kept_after_replay(
    captured: Map<CudaGraphDecodeKey, CudaGraphDecodeEntry>,
    key: CudaGraphDecodeKey,
    ok: bool,
    max_replays: u32,
) -> Map<CudaGraphDecodeKey, CudaGraphDecodeEntry> {
    if !ok || (max_replays > 0 && captured.contains_key(key) && captured[key].replays_used
        >= max_replays) {
        captured.remove(key)
    } else {
        captured
    }
}

/// No key is captured twice.
pub open spec fn keys_unique(entries: Seq<CudaGraphDecodeEntry>) -> bool {
    forall|i: int, j: int|
        0 <= i < j < entries.len() ==> (#[trigger] entries[i]).key != (#[trigger] entries[j]).key
}

proof fn lemma_entries_map(entries: Seq<CudaGraphDecodeEntry>)
    requires
        keys_unique(entries),
    ensures
        forall|i: int|
            0 <= i < entries.len() ==> entries_map(entries).contains_key(
                (#[trigger] entries[i]).key,
            ) && entries_map(entries)[entries[i].key] == entries[i],
        forall|key: CudaGraphDecodeKey| #[trigger]
            entries_map(entries).contains_key(key) ==> exists|i: int|
                0 <= i < entries.len() && (#[trigger] entries[i]).key == key,
    decreases entries.len(),
{
    if entries.len() > 0 {
        let head = entries.drop_last();
        lemma_entries_map(head);
        assert forall|i: int| 0 <= i < entries.len() implies entries_map(entries).contains_key(
            (#[trigger] entries[i]).key,
        ) && entries_map(entries)[entries[i].key] == entries[i] by {
            if i < head.len() {
                assert(head[i] == entries[i]);
                assert(entries[i].key != entries[entries.len() - 1].key);
            }
        }
        assert forall|key: CudaGraphDecodeKey| #[trigger]
            entries_map(entries).contains_key(key) implies exists|i: int|
            0 <= i < entries.len() && (#[trigger] entries[i]).key == key by {
            if key == entries.last().key {
                assert(entries[entries.len() - 1].key == key);
            } else {
                assert(entries_map(head).contains_key(key));
                let i = choose|i: int| 0 <= i < head.len() && (#[trigger] head[i]).key == key;
                assert(entries[i].key == key);
            }
        }
    }
}

proof fn lemma_entries_map_remove(entries: Seq<CudaGraphDecodeEntry>, index: int)
    requires
        keys_unique(entries),
        0 <= index < entries.len(),
    ensures
        keys_unique(entries.remove(index)),
        entries_map(entries.remove(index)) == entries_map(entries).remove(entries[index].key),
{
    let rest = entries.remove(index);
    assert forall|i: int, j: int| 0 <= i < j < rest.len() implies (#[trigger] rest[i]).key != (
    #[trigger] rest[j]).key by {
        let a = if i < index {
            i
        } else {
            i + 1
        };
        let b = if j < index {
            j
        } else {
            j + 1
        };
        assert(rest[i] == entries[a] && rest[j] == entries[b]);
    }
    lemma_entries_map(entries);
    lemma_entries_map(rest);
    let left = entries_map(rest);
    let right = entries_map(entries).remove(entries[index].key);
    assert forall|key: CudaGraphDecodeKey| #[trigger] left.contains_key(key)
        == right.contains_key(key) && (left.contains_key(key) ==> left[key] == right[key]) by {
        if left.contains_key(key) {
            let i = choose|i: int| 0 <= i < rest.len() && (#[trigger] rest[i]).key == key;
            let a = if i < index {
                i
            } else {
                i + 1
            };
            assert(rest[i] == entries[a]);
            assert(entries[a].key != entries[index].key);
        }
        if right.contains_key(key) {
            let a = choose|a: int| 0 <= a < entries.len() && (#[trigger] entries[a]).key == key;
            let i = if a < index {
                a
            } else {
                a - 1
            };
            assert(rest[i] == entries[a]);
        }
    }
    assert(left =~= right);
}

impl CudaGraphCache {
    pub open spec fn wf(&self) -> bool {
        keys_unique(self.entries@)
    }

    /// Captured graphs by key.
    pub open spec fn captured(&self) -> Map<CudaGraphDecodeKey, CudaGraphDecodeEntry> {
        entries_map(self.entries@)
    }

    pub fn new(workspace_generation: u64) -> (result: Self)
        ensures
            result.wf(),
            result.workspace_generation == workspace_generation,
            result.entries@.len() == 0,
            result.poisoned@.len() == 0,
    {
        CudaGraphCache { workspace_generation, entries: Vec::new(), poisoned: Vec::new() }
    }

    /// Forgets all graphs when the workspace that they refer to was replaced.
    pub fn sync_generation(&mut self, workspace_generation: u64)
        requires
            old(self).wf(),
        ensures
            final(self).wf(),
            final(self).workspace_generation == workspace_generation,
            if workspace_generation == old(self).workspace_generation {
                *final(self) == *old(self)
            } else {
                final(self).entries@.len() == 0 && final(self).poisoned@.len() == 0
            },
    {
        if workspace_generation != self.workspace_generation {
            self.entries.clear();
            self.poisoned.clear();
            self.workspace_generation = workspace_generation;
        }
    }

    /// Forgets all graphs when a buffer that they read is about to move.
    pub fn invalidate_on_realloc(&mut self, realloc: bool)
        requires
            old(self).wf(),
        ensures
            final(self).wf(),
            final(self).workspace_generation == old(self).workspace_generation,
            if realloc && old(self).entries@.len() > 0 {
                final(self).entries@.len() == 0 && final(self).poisoned@.len() == 0
            } else {
                *final(self) == *old(self)
            },
    {
        if realloc && self.entries.len() > 0 {
            self.entries.clear();
            self.poisoned.clear();
        }
    }

    fn is_poisoned(&self, key: CudaGraphDecodeKey) -> (result: bool)
        ensures
            result == self.poisoned@.contains(key),
    {
        let mut i: usize = 0;
        while i < self.poisoned.len()
            invariant
                i <= self.poisoned@.len(),
                forall|j: int| 0 <= j < i ==> #[trigger] self.poisoned@[j] != key,
            decreases self.poisoned@.len() - i,
        {
            if self.poisoned[i] == key {
                assert(self.poisoned@[i as int] == key);
                return true;
            }
            i = i + 1;
        }
        false
    }

    fn find(&self, key: CudaGraphDecodeKey) -> (result: Option<usize>)
        requires
            self.wf(),
        ensures
            match result {
                Some(i) => i < self.entries@.len() && self.entries@[i as int].key == key
                    && self.captured().contains_key(key) && self.captured()[key]
                    == self.entries@[i as int],
                None => !self.captured().contains_key(key),
            },
    {
        proof {
            lemma_entries_map(self.entries@);
        }
        let mut i: usize = 0;
        while i < self.entries.len()
            invariant
                i <= self.entries@.len(),
                forall|j: int| 0 <= j < i ==> (#[trigger] self.entries@[j]).key != key,
                forall|j: int|
                    0 <= j < self.entries@.len() ==> self.captured().contains_key(
                        (#[trigger] self.entries@[j]).key,
                    ) && self.captured()[self.entries@[j].key] == self.entries@[j],
                forall|k: CudaGraphDecodeKey| #[trigger]
                    self.captured().contains_key(k) ==> exists|j: int|
                        0 <= j < self.entries@.len() && (#[trigger] self.entries@[j]).key == k,
            decreases self.entries@.len() - i,
        {
            if self.entries[i].key == key {
                return Some(i);
            }
            i = i + 1;
        }
        None
    }

    fn remove(&mut self, key: CudaGraphDecodeKey)
        requires
            old(self).wf(),
        ensures
            final(self).wf(),
            final(self).captured() == old(self).captured().remove(key),
            final(self).poisoned@ == old(self).poisoned@,
            final(self).workspace_generation == old(self).workspace_generation,
    {
        match self.find(key) {
            Some(i) => {
                proof {
                    lemma_entries_map_remove(self.entries@, i as int);
                }
                self.entries.remove(i);
            },
            None => {
                assert(self.captured().remove(key) =~= self.captured());
            },
        }
    }

    fn poison(&mut self, key: CudaGraphDecodeKey)
        ensures
            final(self).entries@ == old(self).entries@,
            final(self).workspace_generation == old(self).workspace_generation,
            forall|k: CudaGraphDecodeKey| #[trigger]
                final(self).poisoned@.contains(k) <==> old(self).poisoned@.contains(k) || k == key,
    {
        if !self.is_poisoned(key) {
            let ghost before = self.poisoned@;
            self.poisoned.push(key);
            assert forall|k: CudaGraphDecodeKey| #[trigger]
                self.poisoned@.contains(k) <==> before.contains(k) || k == key by {
                assert(self.poisoned@[before.len() as int] == key);
                if before.contains(k) {
                    let j = before.index_of(k);
                    assert(self.poisoned@[j] == k);
                }
                if self.poisoned@.contains(k) && k != key {
                    let j = self.poisoned@.index_of(k);
                    assert(before[j] == k);
                }
            }
        }
    }

    /// The key under which a round can use a graph: only a ready round of fixed width, with
    /// capture switched on, whose key did not fail before.
    pub fn key_for(
        &self,
        decision: CudaGraphDecodeDecision,
        fixed_width_round: bool,
        capture_runtime: bool,
        fixed_cache_width: usize,
        has_mask: bool,
    ) -> (result: Option<CudaGraphDecodeKey>)
        ensures
            result == match decision {
                CudaGraphDecodeDecision::Ready { bucket } => {
                    let key = CudaGraphDecodeKey { bucket, fixed_cache_width, has_mask };
                    if fixed_width_round && capture_runtime && !self.poisoned@.contains(key) {
                        Some(key)
                    } else {
                        None
                    }
                },
                _ => None,
            },
    {
        match decision {
            CudaGraphDecodeDecision::Ready { bucket } => {
                let key = CudaGraphDecodeKey { bucket, fixed_cache_width, has_mask };
                if fixed_width_round && capture_runtime && !self.is_poisoned(key) {
                    Some(key)
                } else {
                    None
                }
            },
            _ => None,
        }
    }

    /// Plans the forward pass of a fixed-width round and counts the replay, if it is one. With
    /// `no_reuse` a captured graph is dropped first.
    pub fn plan_round(&mut self, key: Option<CudaGraphDecodeKey>, no_reuse: bool) -> (result:
        CudaGraphRound)
        requires
            old(self).wf(),
        ensures
            final(self).wf(),
            final(self).poisoned@ == old(self).poisoned@,
            final(self).workspace_generation == old(self).workspace_generation,
            match key {
                None => result == CudaGraphRound::Eager && final(self).captured() == old(
                    self,
                ).captured(),
                Some(key) => if no_reuse || !old(self).captured().contains_key(key) {
                    &&& result == (CudaGraphRound::Capture { key })
                    &&& final(self).captured() == old(self).captured().remove(key)
                } else {
                    let entry = old(self).captured()[key];
                    &&& result == (CudaGraphRound::Replay {
                        key,
                        captured_sample_batch: entry.captured_sample_batch,
                    })
                    &&& final(self).captured() == old(self).captured().insert(
                        key,
                        CudaGraphDecodeEntry {
                            replays_used: if entry.replays_used < u32::MAX {
                                (entry.replays_used + 1) as u32
                            } else {
                                u32::MAX
                            },
                            ..entry
                        },
                    )
                },
            },
    {
        let key: CudaGraphDecodeKey = match key {
            Some(key) => key,
            None => {
                return CudaGraphRound::Eager;
            },
        };
        if no_reuse {
            self.remove(key);
        }
        match self.find(key) {
            Some(i) => {
                let ghost before = self.entries@;
                let entry: CudaGraphDecodeEntry = self.entries[i];
                let used: CudaGraphDecodeEntry = CudaGraphDecodeEntry {
                    key: entry.key,
                    captured_sample_batch: entry.captured_sample_batch,
                    replays_used: entry.replays_used.saturating_add(1),
                };
                self.entries.set(i, used);
                proof {
                    lemma_entries_map_update(before, i as int, used);
                }
                CudaGraphRound::Replay {
                    key,
                    captured_sample_batch: entry.captured_sample_batch,
                }
            },
            None => {
                assert(self.captured() =~= old(self).captured().remove(key));
                CudaGraphRound::Capture { key }
            },
        }
    }

    /// Takes note of a replay. A failed graph is dropped for good; one that reached the limit
    /// of replays is dropped to be captured again.
    pub fn after_replay(&mut self, key: CudaGraphDecodeKey, ok: bool, max_replays: u32)
        requires
            old(self).wf(),
        ensures
            final(self).wf(),
            final(self).workspace_generation == old(self).workspace_generation,
            final(self).captured() == kept_after_replay(
                old(self).captured(),
                key,
                ok,
                max_replays,
            ),
            forall|k: CudaGraphDecodeKey| #[trigger]
                final(self).poisoned@.contains(k) <==> old(self).poisoned@.contains(k) || (!ok && k
                    == key),
    {
        if ok {
            if max_replays > 0 {
                match self.find(key) {
                    Some(i) => {
                        if self.entries[i].replays_used >= max_replays {
                            self.remove(key);
                        }
                    },
                    None => {},
                }
            }
        } else {
            self.remove(key);
            self.poison(key);
        }
    }

    /// Takes note of a capture: the graph is kept, or its key is not tried again.
    pub fn after_capture(
        &mut self,
        key: CudaGraphDecodeKey,
        ok: bool,
        captured_sample_batch: Option<usize>,
    )
        requires
            old(self).wf(),
        ensures
            final(self).wf(),
            final(self).workspace_generation == old(self).workspace_generation,
            final(self).captured() == if ok {
                old(self).captured().insert(
                    key,
                    CudaGraphDecodeEntry { key, captured_sample_batch, replays_used: 0 },
                )
            } else {
                old(self).captured()
            },
            forall|k: CudaGraphDecodeKey| #[trigger]
                final(self).poisoned@.contains(k) <==> old(self).poisoned@.contains(k) || (!ok && k
                    == key),
    {
        if ok {
            self.remove(key);
            let ghost before = self.entries@;
            proof {
                lemma_entries_map(before);
            }
            let entry = CudaGraphDecodeEntry { key, captured_sample_batch, replays_used: 0 };
            self.entries.push(entry);
            assert(self.entries@.drop_last() =~= before);
            assert(self.captured() =~= old(self).captured().insert(key, entry));
            assert forall|i: int, j: int| 0 <= i < j < self.entries@.len() implies (
            #[trigger] self.entries@[i]).key != (#[trigger] self.entries@[j]).key by {
                if j == before.len() {
                    assert(before[i].key != key);
                }
            }
        } else {
            self.poison(key);
        }
    }
}

proof fn lemma_entries_map_update(
    entries: Seq<CudaGraphDecodeEntry>,
    index: int,
    entry: CudaGraphDecodeEntry,
)
    requires
        keys_unique(entries),
        0 <= index < entries.len(),
        entry.key == entries[index].key,
    ensures
        keys_unique(entries.update(index, entry)),
        entries_map(entries.update(index, entry)) == entries_map(entries).insert(entry.key, entry),
{
    let changed = entries.update(index, entry);
    assert forall|i: int, j: int| 0 <= i < j < changed.len() implies (#[trigger] changed[i]).key
        != (#[trigger] changed[j]).key by {
        assert(entries[i].key != entries[j].key);
    }
    lemma_entries_map(entries);
    lemma_entries_map(changed);
    let left = entries_map(changed);
    let right = entries_map(entries).insert(entry.key, entry);
    assert forall|key: CudaGraphDecodeKey| #[trigger] left.contains_key(key)
        == right.contains_key(key) && (left.contains_key(key) ==> left[key] == right[key]) by {
        if left.contains_key(key) {
            let i = choose|i: int| 0 <= i < changed.len() && (#[trigger] changed[i]).key == key;
            assert(entries[i].key == key);
        }
        if right.contains_key(key) && key != entry.key {
            let i = choose|i: int| 0 <= i < entries.len() && (#[trigger] entries[i]).key == key;
            assert(changed[i].key == key);
        }
        assert(changed[index] == entry);
    }
    assert(left =~= right);
}

/// A round runs as a graph if and only if nothing stands in its way, and then under a configured
/// bucket of just its size. What is named as an obstacle is one.
pub proof fn law_only_obstacles_stop_a_graph(
    planner: CudaGraphDecodePlanner,
    batch_size: usize,
    on_cuda: bool,
    is_bf16: bool,
    has_attention_mask: bool,
    fixed_width_mask: bool,
    has_paged_attention: bool,
    graph_safe_kv_append: bool,
)
    ensures
        ({
            let decision = planner.decision(
                batch_size,
                on_cuda,
                is_bf16,
                has_attention_mask,
                fixed_width_mask,
                has_paged_attention,
                graph_safe_kv_append,
            );
            let of_its_size = planner.buckets@.contains(batch_size);
            let shape_is_kept = !has_paged_attention && (has_attention_mask ==> fixed_width_mask);
            &&& decision == (CudaGraphDecodeDecision::Ready { bucket: batch_size })
                <==> planner.enabled && on_cuda && is_bf16 && of_its_size && shape_is_kept
                && graph_safe_kv_append
            &&& match decision {
                CudaGraphDecodeDecision::Disabled => !planner.enabled,
                CudaGraphDecodeDecision::Ready { bucket } => bucket == batch_size,
                CudaGraphDecodeDecision::BlockedDynamicKv { bucket } => bucket == batch_size
                    && !graph_safe_kv_append && of_its_size && shape_is_kept,
                CudaGraphDecodeDecision::Miss(reason) => planner.enabled && match reason {
                    CudaGraphDecodeMiss::UnsupportedDevice => !(on_cuda && is_bf16),
                    CudaGraphDecodeMiss::NoBucket => !of_its_size,
                    CudaGraphDecodeMiss::PagedAttention => has_paged_attention,
                    CudaGraphDecodeMiss::AttentionMask => has_attention_mask && !fixed_width_mask,
                },
            }
        }),
{
}

/// Every round but a disabled one is counted once: as one that found its graph or as one that fell
/// back with its rows, and as the latter under exactly one reason.
pub proof fn law_rounds_are_counted_once(
    stats: EngineStats,
    decision: CudaGraphDecodeDecision,
    active_rows: u64,
)
    ensures
        ({
            let after = recorded(stats, decision, active_rows);
            let rounds = stats::moved(
                stats.total_cuda_graph_decode_rounds,
                after.total_cuda_graph_decode_rounds,
            );
            let eligible = stats::moved(
                stats.total_cuda_graph_decode_eligible_rounds,
                after.total_cuda_graph_decode_eligible_rounds,
            );
            let fallbacks = stats::moved(
                stats.total_cuda_graph_decode_fallbacks,
                after.total_cuda_graph_decode_fallbacks,
            );
            let tokens = stats::moved(
                stats.total_cuda_graph_decode_fallback_tokens,
                after.total_cuda_graph_decode_fallback_tokens,
            );
            let dynamic_kv = stats::moved(
                stats.total_cuda_graph_decode_miss_dynamic_kv,
                after.total_cuda_graph_decode_miss_dynamic_kv,
            );
            let device = stats::moved(
                stats.total_cuda_graph_decode_miss_device,
                after.total_cuda_graph_decode_miss_device,
            );
            let no_bucket = stats::moved(
                stats.total_cuda_graph_decode_miss_no_bucket,
                after.total_cuda_graph_decode_miss_no_bucket,
            );
            let mask = stats::moved(
                stats.total_cuda_graph_decode_miss_mask,
                after.total_cuda_graph_decode_miss_mask,
            );
            let paged = stats::moved(
                stats.total_cuda_graph_decode_miss_paged_attention,
                after.total_cuda_graph_decode_miss_paged_attention,
            );
            &&& decision is Disabled <==> rounds == 0
            &&& rounds <= 1
            &&& rounds == fallbacks + if decision is Ready {
                1int
            } else {
                0
            }
            &&& fallbacks == 1 ==> tokens == active_rows
            &&& fallbacks == 0 ==> tokens == 0
            &&& fallbacks == dynamic_kv + device + no_bucket + mask + paged
            &&& decision is BlockedDynamicKv ==> dynamic_kv == 1
            &&& decision == CudaGraphDecodeDecision::Miss(CudaGraphDecodeMiss::UnsupportedDevice)
                ==> device == 1
            &&& decision == CudaGraphDecodeDecision::Miss(CudaGraphDecodeMiss::NoBucket)
                ==> no_bucket == 1
            &&& decision == CudaGraphDecodeDecision::Miss(CudaGraphDecodeMiss::AttentionMask)
                ==> mask == 1
            &&& decision == CudaGraphDecodeDecision::Miss(CudaGraphDecodeMiss::PagedAttention)
                ==> paged == 1
            &&& eligible == dynamic_kv + rounds - fallbacks
        }),
{
}

/// A graph that failed is dropped, one that was replayed as often as allowed is dropped too, and
/// every other one is kept as it is.
pub proof fn law_worn_graphs_are_dropped(
    captured: Map<CudaGraphDecodeKey, CudaGraphDecodeEntry>,
    key: CudaGraphDecodeKey,
    ok: bool,
    max_replays: u32,
    other: CudaGraphDecodeKey,
)
    ensures
        ({
            let kept = kept_after_replay(captured, key, ok, max_replays);
            &&& !ok ==> !kept.contains_key(key)
            &&& kept.contains_key(key) && max_replays > 0 ==> kept[key].replays_used < max_replays
            &&& ok && captured.contains_key(key) && (max_replays == 0
                || captured[key].replays_used < max_replays) ==> kept.contains_key(key)
            &&& kept.contains_key(other) ==> captured.contains_key(other) && kept[other]
                == captured[other]
            &&& other != key && captured.contains_key(other) ==> kept.contains_key(other)
        }),
{
}

/// Decoding at a fixed width is for batches of a configured size, and only where it is switched on.
pub proof fn law_fixed_width_is_for_buckets(planner: CudaGraphDecodePlanner, batch_size: usize, i: int)
    ensures
        planner.fixed_width_for(batch_size) ==> planner.fixed_width_decode && exists|k: int|
            0 <= k < planner.buckets@.len() && #[trigger] planner.buckets@[k] == batch_size,
        planner.fixed_width_decode && 0 <= i < planner.buckets@.len()
            ==> planner.fixed_width_for(planner.buckets@[i]),
{
    if planner.fixed_width_for(batch_size) {
        let k = planner.buckets@.index_of(batch_size);
        assert(planner.buckets@[k] == batch_size);
    }
    if 0 <= i < planner.buckets@.len() {
        assert(planner.buckets@.contains(planner.buckets@[i]));
    }
}

} // verus!
