//! Audio devices as the application lists them, and the capabilities shown
//! for a device given the stream configurations it supports.
use vstd::prelude::*;

verus! {

/// Identifier of an audio device
#[derive(Debug)]
pub struct DeviceId(pub String);

/// An audio device
#[derive(Debug)]
pub struct AudioDevice {
    /// Device identifier
    pub id: DeviceId,
    /// Display name
    pub name: String,
    /// Supported sample rates (Hz)
    pub supported_sample_rates: Vec<u32>,
    /// Supported channel counts
    pub supported_channels: Vec<u16>,
    /// Whether this is the default device
    pub is_default: bool,
    /// ASIO support (Windows only)
    pub is_asio: bool,
}

/// One stream configuration a device supports: a range of sample rates and
/// a channel count.
#[derive(Debug, Clone, Copy)]
pub struct ConfigRange {
    pub min_sample_rate: u32,
    pub max_sample_rate: u32,
    pub channels: u16,
}

/// The sample rates offered when a device supports them.
pub open spec fn common_rates() -> Seq<u32> {
    seq![44100u32, 48000u32, 96000u32, 192000u32]
}

/// Whether some configuration covers sample rate `rate`.
pub open spec fn rate_covered(cs: Seq<ConfigRange>, rate: u32) -> bool {
    exists|i: int| 0 <= i < cs.len() && (#[trigger] cs[i]).min_sample_rate <= rate <= cs[i].max_sample_rate
}

/// Whether some configuration has `ch` channels.
pub open spec fn channels_offered(cs: Seq<ConfigRange>, ch: u16) -> bool {
    exists|i: int| 0 <= i < cs.len() && (#[trigger] cs[i]).channels == ch
}

pub open spec fn increasing_rates(s: Seq<u32>) -> bool {
    forall|i: int, j: int| 0 <= i < j < s.len() ==> s[i] < s[j]
}

pub open spec fn increasing_channels(s: Seq<u16>) -> bool {
    forall|i: int, j: int| 0 <= i < j < s.len() ==> s[i] < s[j]
}

/// The sample rates shown for a device: the common rates some configuration
/// covers, in increasing order, or 44100 and 48000 when it covers none.
pub open spec fn shown_rates(cs: Seq<ConfigRange>) -> Seq<u32> {
    let covered = rate_if(cs, 44100) + rate_if(cs, 48000) + rate_if(cs, 96000) + rate_if(cs, 192000);
    if covered.len() == 0 {
        seq![44100u32, 48000u32]
    } else {
        covered
    }
}

/// `rate` alone when some configuration covers it, else nothing.
pub open spec fn rate_if(cs: Seq<ConfigRange>, rate: u32) -> Seq<u32> {
    if rate_covered(cs, rate) {
        seq![rate]
    } else {
        Seq::empty()
    }
}

/// Whether configuration `c` covers `rate`.
fn covers(c: &ConfigRange, rate: u32) -> (r: bool)
    ensures
        r == (c.min_sample_rate <= rate <= c.max_sample_rate),
{
    rate >= c.min_sample_rate && rate <= c.max_sample_rate
}

/// Whether some configuration of `configs` covers `rate`.
fn any_covers(configs: &[ConfigRange], rate: u32) -> (r: bool)
    ensures
        r == rate_covered(configs@, rate),
{
    let mut i: usize = 0;
    while i < configs.len()
        invariant
            i <= configs@.len(),
            forall|j: int| 0 <= j < i ==> !((#[trigger] configs@[j]).min_sample_rate <= rate <= configs@[j].max_sample_rate),
        decreases configs.len() - i,
    {
        if covers(&configs[i], rate) {
            assert(configs@[i as int].min_sample_rate <= rate <= configs@[i as int].max_sample_rate);
            return true;
        }
        i = i + 1;
    }
    false
}

/// The channel counts shown for a device: each count some configuration has,
/// once, in increasing order; 1 and 2 when there are none.
pub fn shown_channels(configs: &[ConfigRange]) -> (r: Vec<u16>)
    ensures
        increasing_channels(r@),
        configs@.len() == 0 ==> r@ == seq![1u16, 2u16],
        configs@.len() > 0 ==> forall|ch: u16| r@.contains(ch) <==> channels_offered(configs@, ch),
{
    let mut out: Vec<u16> = Vec::new();
    let mut i: usize = 0;
    while i < configs.len()
        invariant
            i <= configs@.len(),
            increasing_channels(out@),
            forall|ch: u16| out@.contains(ch) <==> channels_offered(configs@.subrange(0, i as int), ch),
        decreases configs.len() - i,
    {
        let ch = configs[i].channels;
        // find the place of ch in the sorted list
        let mut k: usize = 0;
        while k < out.len() && out[k] < ch
            invariant
                k <= out@.len(),
                forall|j: int| 0 <= j < k ==> out@[j] < ch,
            decreases out.len() - k,
        {
            k = k + 1;
        }
        let ghost before = out@;
        if k < out.len() && out[k] == ch {
        } else {
            out.insert(k, ch);
            assert forall|a: int, b: int| 0 <= a < b < out@.len() implies out@[a] < out@[b] by {
                if a < k as int && b == k as int {
                } else if a < k as int && b > k as int {
                    assert(before[a] < before[b - 1]);
                } else if a == k as int && b > k as int {
                    assert(b - 1 >= k);
                    assert(before[b - 1] >= before[k as int] || b - 1 == k as int);
                } else if a > k as int {
                    assert(before[a - 1] < before[b - 1]);
                }
            }
        }
        let ghost prev = configs@.subrange(0, i as int);
        let ghost next = configs@.subrange(0, i as int + 1);
        assert forall|c: u16| out@.contains(c) <==> channels_offered(next, c) by {
            if channels_offered(next, c) {
                let j = choose|j: int| 0 <= j < next.len() && (#[trigger] next[j]).channels == c;
                if j < i {
                    assert(prev[j] == next[j]);
                    assert(channels_offered(prev, c));
                    assert(before.contains(c));
                    let m = choose|m: int| 0 <= m < before.len() && before[m] == c;
                    if m < k as int {
                        assert(out@[m] == c);
                    } else if out@.len() > before.len() {
                        assert(out@[m + 1] == c);
                    } else {
                        assert(out@[m] == c);
                    }
                } else {
                    assert(c == ch);
                    assert(out@[k as int] == ch);
                }
            }
            if out@.contains(c) {
                let m = choose|m: int| 0 <= m < out@.len() && out@[m] == c;
                if c == ch {
                    assert(next[i as int].channels == ch);
                } else {
                    if out@.len() > before.len() {
                        if m < k as int {
                            assert(before[m] == c);
                        } else {
                            assert(m != k as int);
                            assert(before[m - 1] == c);
                        }
                    } else {
                        assert(before[m] == c);
                    }
                    assert(before.contains(c));
                    let j = choose|j: int| 0 <= j < prev.len() && (#[trigger] prev[j]).channels == c;
                    assert(next[j] == prev[j]);
                }
            }
        }
        i = i + 1;
    }
    assert(configs@.subrange(0, configs@.len() as int) =~= configs@);
    if configs.len() > 0 {
        assert(channels_offered(configs@, configs@[0].channels));
        assert(out@.contains(configs@[0].channels));
    }
    if out.len() > 0 {
        assert(out@.contains(out@[0]));
    }
    if out.len() == 0 {
        let d = vec![1u16, 2u16];
        assert(d@ =~= seq![1u16, 2u16]);
        return d;
    }
    out
}


/// The sample rates shown for a device with configurations `configs`.
pub fn shown_sample_rates(configs: &[ConfigRange]) -> (r: Vec<u32>)
    ensures
        r@ == shown_rates(configs@),
        increasing_rates(r@),
{
    let mut out: Vec<u32> = Vec::new();
    if any_covers(configs, 44100) {
        out.push(44100);
    }
    assert(out@ =~= rate_if(configs@, 44100));
    if any_covers(configs, 48000) {
        out.push(48000);
    }
    assert(out@ =~= rate_if(configs@, 44100) + rate_if(configs@, 48000));
    if any_covers(configs, 96000) {
        out.push(96000);
    }
    assert(out@ =~= rate_if(configs@, 44100) + rate_if(configs@, 48000) + rate_if(configs@, 96000));
    if any_covers(configs, 192000) {
        out.push(192000);
    }
    assert(out@ =~= rate_if(configs@, 44100) + rate_if(configs@, 48000) + rate_if(configs@, 96000)
        + rate_if(configs@, 192000));
    if out.len() == 0 {
        let d = vec![44100u32, 48000u32];
        assert(d@ =~= seq![44100u32, 48000u32]);
        return d;
    }
    out
}

/// The sample rates and channel counts shown for a device that supports the
/// stream configurations `configs`.
pub fn device_capabilities(configs: &[ConfigRange]) -> (r: (Vec<u32>, Vec<u16>))
    ensures
        r.0@ == shown_rates(configs@),
        increasing_rates(r.0@),
        increasing_channels(r.1@),
        configs@.len() == 0 ==> r.1@ == seq![1u16, 2u16],
        configs@.len() > 0 ==> forall|ch: u16| r.1@.contains(ch) <==> channels_offered(configs@, ch),
{
    (shown_sample_rates(configs), shown_channels(configs))
}

} // verus!
