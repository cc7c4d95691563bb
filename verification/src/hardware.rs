//! What the machine can carry: its memory and chip, and the tier they suggest.
use vstd::prelude::*;
use crate::text;

verus! {

/// How large a local model the machine can be expected to run.
#[derive(Clone, Copy, Debug, PartialEq, Eq, Structural)]
pub enum Tier {
    Lite,
    Standard,
    Pro,
    Byok,
}

/// What was found out about the machine.
#[derive(Debug, PartialEq, Eq)]
pub struct HardwareInfo {
    pub total_ram_gb: u32,
    /// The chip, as far as it is known, such as `Apple M3 Pro`.
    pub chip: String,
    pub recommended_tier: Tier,
}

/// A gibibyte.
pub const GIB: u64 = 1073741824;

/// The memory in gibibytes, rounded to the nearest, halves up.
pub open spec fn rounded_gib(bytes: int) -> int {
    let n = (2 * bytes + GIB) / (2 * GIB as int);
    if n > u32::MAX {
        u32::MAX as int
    } else {
        n
    }
}

/// The memory in gibibytes, rounded to the nearest.
pub fn ram_gb(total_bytes: u64) -> (r: u32)
    ensures
        r == rounded_gib(total_bytes as int),
{
    let n: u128 = (2 * (total_bytes as u128) + GIB as u128) / (2 * (GIB as u128));
    if n > u32::MAX as u128 {
        u32::MAX
    } else {
        n as u32
    }
}

/// What follows `label` in the first of `lines`, from `i` on, that begins with
/// it, white space around the line aside.
pub open spec fn labelled_from(lines: Seq<Seq<char>>, label: Seq<char>, i: int) -> Option<Seq<char>>
    decreases lines.len() - i,
{
    if i >= lines.len() {
        None
    } else {
        match text::without_prefix(text::trimmed(lines[i]), label) {
            Some(rest) => Some(text::trimmed(rest)),
            None => labelled_from(lines, label, i + 1),
        }
    }
}

/// The chip that a hardware profile names: after `Chip:`, else after
/// `Processor Name:`, else `Mac`.
pub open spec fn chip_in(profile: Seq<char>) -> Seq<char> {
    let lines = text::lines_of(profile);
    match labelled_from(lines, "Chip:"@, 0) {
        Some(c) => c,
        None => match labelled_from(lines, "Processor Name:"@, 0) {
            Some(c) => c,
            None => "Mac"@,
        },
    }
}

fn labelled(lines: &Vec<String>, label: &str) -> (r: Option<String>)
    ensures
        text::opt_text(r) == labelled_from(text::texts(lines@), label@, 0),
{
    let ghost all = text::texts(lines@);
    let mut i: usize = 0;
    while i < lines.len()
        invariant
            all == text::texts(lines@),
            i <= lines.len(),
            labelled_from(all, label@, 0) == labelled_from(all, label@, i as int),
        decreases lines.len() - i,
    {
        match text::strip_prefix(text::trim(lines[i].as_str()), label) {
            Some(rest) => {
                return Some(text::trim(rest).to_owned());
            },
            None => {},
        }
        i += 1;
    }
    None
}

/// The machine's chip: on macOS from what `system_profiler` printed (`None`
/// where it could not be run), elsewhere unknown.
pub fn detect_chip(macos: bool, profile: Option<&str>) -> (r: String)
    ensures
        !macos ==> r@ == "Unknown CPU"@,
        macos && profile is None ==> r@ == "Unknown Mac"@,
        macos && profile is Some ==> r@ == chip_in(profile->0@),
{
    if !macos {
        return "Unknown CPU".to_owned();
    }
    match profile {
        None => "Unknown Mac".to_owned(),
        Some(p) => {
            let lines = text::lines(p);
            match labelled(&lines, "Chip:") {
                Some(c) => c,
                None => match labelled(&lines, "Processor Name:") {
                    Some(c) => c,
                    None => "Mac".to_owned(),
                },
            }
        },
    }
}

/// The chip is one of Apple's.
pub open spec fn apple_chip(chip: Seq<char>) -> bool {
    text::begins(text::lowercase(chip), "apple"@)
}

/// The chip is one of Apple's larger ones.
pub open spec fn large_apple_chip(chip: Seq<char>) -> bool {
    let c = text::lowercase(chip);
    apple_chip(chip) && (text::has_text(c, "pro"@) || text::has_text(c, "max"@) || text::has_text(
        c,
        "ultra"@,
    ))
}

/// The tier for a machine: `Pro` from 48 GB on a larger Apple chip, `Standard`
/// from 24 GB on an Apple chip and from 32 GB on any other, `Lite` from 16 GB,
/// else a key of one's own.
pub open spec fn tier_for(ram_gb: int, chip: Seq<char>) -> Tier {
    let standard: int = if apple_chip(chip) {
        24
    } else {
        32
    };
    if ram_gb >= 48 && large_apple_chip(chip) {
        Tier::Pro
    } else if ram_gb >= standard {
        Tier::Standard
    } else if ram_gb >= 16 {
        Tier::Lite
    } else {
        Tier::Byok
    }
}

/// The tier that memory and chip suggest.
pub fn score_tier(ram_gb: u32, chip: &str) -> (r: Tier)
    ensures
        r == tier_for(ram_gb as int, chip@),
{
    let lower = text::to_lowercase(chip);
    let c = lower.as_str();
    let apple = text::starts_with(c, "apple");
    let large = apple && (text::contains(c, "pro") || text::contains(c, "max") || text::contains(
        c,
        "ultra",
    ));
    let standard: u32 = if apple {
        24
    } else {
        32
    };
    if ram_gb >= 48 && large {
        Tier::Pro
    } else if ram_gb >= standard {
        Tier::Standard
    } else if ram_gb >= 16 {
        Tier::Lite
    } else {
        Tier::Byok
    }
}

/// The machine, from its memory in bytes and what is known of its chip.
pub fn detect(total_bytes: u64, macos: bool, profile: Option<&str>) -> (r: HardwareInfo)
    ensures
        r.total_ram_gb == rounded_gib(total_bytes as int),
        !macos ==> r.chip@ == "Unknown CPU"@,
        macos && profile is None ==> r.chip@ == "Unknown Mac"@,
        macos && profile is Some ==> r.chip@ == chip_in(profile->0@),
        r.recommended_tier == tier_for(r.total_ram_gb as int, r.chip@),
{
    let total_ram_gb: u32 = ram_gb(total_bytes);
    let chip = detect_chip(macos, profile);
    let recommended_tier = score_tier(total_ram_gb, chip.as_str());
    HardwareInfo { total_ram_gb, chip, recommended_tier }
}

/// The rank of a tier: the more it asks of the machine the higher.
pub open spec fn tier_rank(t: Tier) -> int {
    match t {
        Tier::Byok => 0,
        Tier::Lite => 1,
        Tier::Standard => 2,
        Tier::Pro => 3,
    }
}

/// More memory never suggests a lower tier.
pub proof fn law_more_memory_no_lower_tier(less: int, more: int, chip: Seq<char>)
    requires
        less <= more,
    ensures
        tier_rank(tier_for(less, chip)) <= tier_rank(tier_for(more, chip)),
{
}

/// The memory is rounded to the nearest gibibyte, halves up.
pub proof fn law_memory_is_rounded(gib: int, rest: int)
    requires
        0 <= gib <= u32::MAX - 1,
        0 <= rest < GIB,
    ensures
        rest < GIB / 2 ==> rounded_gib(gib * GIB + rest) == gib,
        rest >= GIB / 2 ==> rounded_gib(gib * GIB + rest) == gib + 1,
{
    let bytes = gib * GIB + rest;
    assert((2 * bytes + 1073741824) / 2147483648 == if rest < 536870912 {
        gib
    } else {
        gib + 1
    }) by (nonlinear_arith)
        requires
            bytes == gib * 1073741824 + rest,
            0 <= rest < 1073741824,
    ;
}

/// Where each tier begins: sixteen gibibytes for the least, a larger Apple chip with
/// forty-eight for the greatest, and between them twenty-four on an Apple chip and
/// thirty-two on another.
pub proof fn law_tiers_begin_at_their_memory(ram: int, chip: Seq<char>)
    ensures
        tier_for(ram, chip) == Tier::Byok <==> ram < 16,
        tier_for(ram, chip) == Tier::Pro <==> ram >= 48 && large_apple_chip(chip),
        apple_chip(chip) ==> (tier_for(ram, chip) == Tier::Lite <==> 16 <= ram < 24),
        !apple_chip(chip) ==> (tier_for(ram, chip) == Tier::Lite <==> 16 <= ram < 32),
        large_apple_chip(chip) ==> apple_chip(chip),
{
}

/// A label is read off the first line that has it.
pub proof fn law_first_labelled_line_counts(
    before: Seq<Seq<char>>,
    line: Seq<char>,
    after: Seq<Seq<char>>,
    label: Seq<char>,
)
    requires
        forall|i: int|
            0 <= i < before.len() ==> !text::begins(text::trimmed(#[trigger] before[i]), label),
        text::begins(text::trimmed(line), label),
    ensures
        labelled_from(before + seq![line] + after, label, 0) == Some(
            text::trimmed(text::trimmed(line).skip(label.len() as int)),
        ),
{
    lemma_labelled_from(before, line, after, label, 0);
}

proof fn lemma_labelled_from(
    before: Seq<Seq<char>>,
    line: Seq<char>,
    after: Seq<Seq<char>>,
    label: Seq<char>,
    i: int,
)
    requires
        0 <= i <= before.len(),
        forall|k: int|
            0 <= k < before.len() ==> !text::begins(text::trimmed(#[trigger] before[k]), label),
        text::begins(text::trimmed(line), label),
    ensures
        labelled_from(before + seq![line] + after, label, i) == Some(
            text::trimmed(text::trimmed(line).skip(label.len() as int)),
        ),
    decreases before.len() - i,
{
    let all = before + seq![line] + after;
    if i < before.len() {
        assert(all[i] == before[i]);
        assert(!text::begins(text::trimmed(before[i]), label));
        lemma_labelled_from(before, line, after, label, i + 1);
    } else {
        assert(all[i] == line);
    }
}

/// The chip is what the profile names first as one, and only without that what it names
/// as the processor.
pub proof fn law_the_chip_is_named_first(
    before: Seq<Seq<char>>,
    line: Seq<char>,
    after: Seq<Seq<char>>,
    profile: Seq<char>,
)
    requires
        text::lines_of(profile) == before + seq![line] + after,
    ensures
        (forall|i: int|
            0 <= i < before.len() ==> !text::begins(text::trimmed(#[trigger] before[i]), "Chip:"@))
            && text::begins(text::trimmed(line), "Chip:"@) ==> chip_in(profile) == text::trimmed(
            text::trimmed(line).skip("Chip:"@.len() as int),
        ),
        (forall|i: int|
            0 <= i < text::lines_of(profile).len() ==> !text::begins(
                text::trimmed(#[trigger] text::lines_of(profile)[i]),
                "Chip:"@,
            )) && (forall|i: int|
            0 <= i < before.len() ==> !text::begins(
                text::trimmed(#[trigger] before[i]),
                "Processor Name:"@,
            )) && text::begins(text::trimmed(line), "Processor Name:"@) ==> chip_in(profile)
            == text::trimmed(text::trimmed(line).skip("Processor Name:"@.len() as int)),
{
    let lines = text::lines_of(profile);
    if (forall|i: int|
        0 <= i < before.len() ==> !text::begins(text::trimmed(#[trigger] before[i]), "Chip:"@))
        && text::begins(text::trimmed(line), "Chip:"@) {
        law_first_labelled_line_counts(before, line, after, "Chip:"@);
    }
    if (forall|i: int|
        0 <= i < before.len() ==> !text::begins(
            text::trimmed(#[trigger] before[i]),
            "Processor Name:"@,
        )) && text::begins(text::trimmed(line), "Processor Name:"@) {
        law_first_labelled_line_counts(before, line, after, "Processor Name:"@);
    }
    if forall|i: int|
        0 <= i < lines.len() ==> !text::begins(text::trimmed(#[trigger] lines[i]), "Chip:"@) {
        lemma_not_labelled(lines, "Chip:"@, 0);
    }
}

proof fn lemma_not_labelled(lines: Seq<Seq<char>>, label: Seq<char>, i: int)
    requires
        0 <= i <= lines.len(),
        forall|k: int|
            0 <= k < lines.len() ==> !text::begins(text::trimmed(#[trigger] lines[k]), label),
    ensures
        labelled_from(lines, label, i) is None,
    decreases lines.len() - i,
{
    if i < lines.len() {
        assert(!text::begins(text::trimmed(lines[i]), label));
        lemma_not_labelled(lines, label, i + 1);
    }
}

/// A chip is one of Apple's by how its name begins, in whatever case, and one of the larger
/// ones by any of three words in it.
pub proof fn law_chips_are_told_by_their_name(chip: Seq<char>)
    ensures
        apple_chip(chip) <==> text::begins(text::lowercase(chip), "apple"@),
        apple_chip(chip) && text::has_text(text::lowercase(chip), "pro"@) ==> large_apple_chip(chip),
        apple_chip(chip) && text::has_text(text::lowercase(chip), "max"@) ==> large_apple_chip(chip),
        apple_chip(chip) && text::has_text(text::lowercase(chip), "ultra"@) ==> large_apple_chip(
            chip,
        ),
        large_apple_chip(chip) ==> text::has_text(text::lowercase(chip), "pro"@) || text::has_text(
            text::lowercase(chip),
            "max"@,
        ) || text::has_text(text::lowercase(chip), "ultra"@),
{
}

} // verus!
