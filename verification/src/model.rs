//! Whisper models: which sizes exist, where they come from, and how
//! `callout model list` shows them.
use vstd::prelude::*;
use crate::text::{concat2, decimal, str_eq, u64_to_decimal};
use crate::voices::{pad_right, pad_to, spaces};

verus! {

/// The model sizes that can be downloaded.
pub open spec fn known_sizes() -> Seq<Seq<char>> {
    seq!["tiny"@, "base"@, "small"@, "medium"@, "large"@]
}

/// The model sizes, in the order they are listed.
pub fn sizes() -> (v: Vec<String>)
    ensures
        v@.map_values(|s: String| s@) == known_sizes(),
{
    let mut v: Vec<String> = Vec::new();
    v.push(crate::text::owned("tiny"));
    v.push(crate::text::owned("base"));
    v.push(crate::text::owned("small"));
    v.push(crate::text::owned("medium"));
    v.push(crate::text::owned("large"));
    assert(v@.map_values(|s: String| s@) =~= known_sizes());
    v
}

/// `size` is one of the known sizes.
pub fn is_known_size(size: &str) -> (b: bool)
    ensures
        b == known_sizes().contains(size@),
{
    let b = str_eq(size, "tiny") || str_eq(size, "base") || str_eq(size, "small") || str_eq(
        size,
        "medium",
    ) || str_eq(size, "large");
    proof {
        let k = known_sizes();
        if b {
            if size@ == "tiny"@ {
                assert(k[0] == size@);
            } else if size@ == "base"@ {
                assert(k[1] == size@);
            } else if size@ == "small"@ {
                assert(k[2] == size@);
            } else if size@ == "medium"@ {
                assert(k[3] == size@);
            } else {
                assert(k[4] == size@);
            }
        } else {
            assert forall|i: int| 0 <= i < k.len() implies k[i] != size@ by {}
        }
    }
    b
}

/// A download of `size` may go ahead, or the error explains why not.
pub fn check_size(size: &str) -> (r: Result<(), String>)
    ensures
        r is Ok <==> known_sizes().contains(size@),
        r matches Err(m) ==> m@ == "unknown model size \""@ + size@
            + "\". Valid: tiny, base, small, medium, large"@,
{
    if is_known_size(size) {
        Ok(())
    } else {
        let m = concat2("unknown model size \"", size);
        Err(concat2(m.as_str(), "\". Valid: tiny, base, small, medium, large"))
    }
}

/// Where the model of `size` is downloaded from.
pub fn download_url(size: &str) -> (url: String)
    ensures
        url@ == "https://huggingface.co/ggerganov/whisper.cpp/resolve/main/ggml-"@ + size@
            + ".bin"@,
{
    let u = concat2("https://huggingface.co/ggerganov/whisper.cpp/resolve/main/ggml-", size);
    concat2(u.as_str(), ".bin")
}

/// Whole mebibytes in `bytes`.
pub fn megabytes(bytes: u64) -> (mb: u64)
    ensures
        mb == bytes / 1_048_576,
{
    bytes / 1_048_576
}

/// `s` padded on the left with spaces to at least `w` characters (`{:>w}`).
pub open spec fn pad_left(s: Seq<char>, w: int) -> Seq<char> {
    if s.len() < w {
        spaces(w - s.len()) + s
    } else {
        s
    }
}

/// A row of `callout model list`: size padded to 8, size in MB right-aligned
/// to 4, and a mark on the active model.
pub open spec fn model_row_text(size: Seq<char>, mb: u64, active: bool) -> Seq<char> {
    "  "@ + pad_right(size, 8) + " "@ + pad_left(decimal(mb as nat), 4) + " MB"@ + (if active {
        "  ← active"@
    } else {
        Seq::empty()
    })
}

/// The row shown for a downloaded model.
pub fn model_row(size: &str, mb: u64, active: bool) -> (row: String)
    ensures
        row@ == model_row_text(size@, mb, active),
{
    let d = u64_to_decimal(mb);
    let n = crate::text::char_count(d.as_str());
    let mut pad = String::new();
    let mut k: usize = n;
    while k < 4
        invariant
            n == d@.len(),
            k >= n,
            n < 4 ==> k <= 4,
            n >= 4 ==> k == n,
            pad@ == spaces(k - n),
        decreases 4 - k,
    {
        crate::text::push_char(&mut pad, ' ');
        assert(spaces(k - n).push(' ') =~= spaces(k + 1 - n));
        k = k + 1;
    }
    proof {
        if n >= 4 {
            assert(pad@ =~= Seq::<char>::empty());
        }
    }
    let num = concat2(pad.as_str(), d.as_str());
    assert(num@ =~= pad_left(decimal(mb as nat), 4));
    let row = concat2("  ", pad_to(size, 8).as_str());
    let row = concat2(row.as_str(), " ");
    let row = concat2(row.as_str(), num.as_str());
    let row = concat2(row.as_str(), " MB");
    if active {
        concat2(row.as_str(), "  ← active")
    } else {
        row
    }
}

} // verus!
