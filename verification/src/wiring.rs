//! What the fingerprint of a layout tells of its wiring.
//!
//! A running capture is armed anew when the fingerprint changes. So whatever
//! decides where a crossing lands has to show in it, and what does not should
//! leave it alone.

use crate::double::{
    apart, fixed4, in_fixed4, lemma_fixed4_chars, lemma_fixed4_ends, lemma_same_fixed4_is_near,
};
use crate::edge::{Edge, EdgeSpan};
use crate::layout::{
    goes_by, is_local, own_device_of, screen_named, Device, LayoutState, LinkView, Screen,
};
use crate::platform::Platform;
use crate::seqs::{first, lemma_first, lemma_first_of_both};
use crate::targets::{
    fingerprint_of, implied_links, law_only_no_targets_leave_no_fingerprint,
    law_targets_take_input, link_ends, links_in_force, links_of_device, links_of_devices,
    links_of_screen, proper_span, pushed, reachable_as, reachable_device, rectangle_text, stretch_text,
    takes_input, target_of_link, target_text, targets_of, targets_of_links, TargetView,
};
use crate::text::{
    is_digit, lemma_last_parts_are_equal, lemma_parts_are_equal, lemma_signed_decimal,
    signed_decimal,
};
use vstd::prelude::*;

verus! {

// ---------------------------------------------------------------------------
// One target
// ---------------------------------------------------------------------------
/// Whether two targets cross between the same places: the same sides, the same
/// pixels, and stretches that read the same with four decimals.
pub open spec fn wired_alike(a: TargetView, b: TargetView) -> bool {
    &&& a.edge == b.edge
    &&& fixed4(a.local_span.start) == fixed4(b.local_span.start)
    &&& fixed4(a.local_span.end) == fixed4(b.local_span.end)
    &&& a.remote_edge == b.remote_edge
    &&& fixed4(a.remote_span.start) == fixed4(b.remote_span.start)
    &&& fixed4(a.remote_span.end) == fixed4(b.remote_span.end)
    &&& a.local_screen.rect() == b.local_screen.rect()
    &&& a.remote_screen.rect() == b.remote_screen.rect()
}

/// Whether two targets lead to the same screen.
pub open spec fn named_alike(a: TargetView, b: TargetView) -> bool {
    a.device_id == b.device_id && a.screen_id == b.screen_id
}

/// Whether a target's spans are the ones that a layout gives.
pub open spec fn proper(target: TargetView) -> bool {
    proper_span(target.local_span) && proper_span(target.remote_span)
}

/// What names a target in a fingerprint.
spec fn head(target: TargetView) -> Seq<char> {
    target.device_id + seq![':'] + target.screen_id
}

/// What follows the name of a target in a fingerprint.
spec fn tail(target: TargetView) -> Seq<char> {
    seq![':'] + stretch_text(target.edge, target.local_span) + seq!['>'] + stretch_text(
        target.remote_edge,
        target.remote_span,
    ) + seq![':'] + rectangle_text(target.local_screen) + seq!['>'] + rectangle_text(
        target.remote_screen,
    )
}

proof fn lemma_head_and_tail(target: TargetView)
    ensures
        target_text(target) == head(target) + tail(target),
{
    reveal_strlit(":");
    reveal_strlit(">");
    assert(":"@ =~= seq![':']);
    assert(">"@ =~= seq!['>']);
    assert(target_text(target) =~= head(target) + tail(target));
}

proof fn lemma_rectangle_chars(screen: Screen)
    ensures
        forall|i: int|
            0 <= i < rectangle_text(screen).len() ==> is_digit(#[trigger] rectangle_text(screen)[i])
                || rectangle_text(screen)[i] == '-' || rectangle_text(screen)[i] == ','
                || rectangle_text(screen)[i] == 'x',
{
    reveal_strlit(",");
    reveal_strlit("x");
    lemma_signed_decimal(screen.x as int, 0);
    lemma_signed_decimal(screen.y as int, 0);
    lemma_signed_decimal(screen.width as int, 0);
    lemma_signed_decimal(screen.height as int, 0);
}

/// The text of a rectangle tells it.
proof fn lemma_rectangle(a: Screen, b: Screen)
    ensures
        rectangle_text(a) == rectangle_text(b) <==> a.rect() == b.rect(),
{
    if rectangle_text(a) == rectangle_text(b) {
        reveal_strlit(",");
        reveal_strlit("x");
        assert(","@ =~= seq![',']);
        assert("x"@ =~= seq!['x']);
        lemma_signed_decimal(a.x as int, b.x as int);
        lemma_signed_decimal(b.x as int, a.x as int);
        lemma_signed_decimal(a.y as int, b.y as int);
        lemma_signed_decimal(b.y as int, a.y as int);
        lemma_signed_decimal(a.width as int, b.width as int);
        lemma_signed_decimal(b.width as int, a.width as int);
        lemma_signed_decimal(a.height as int, b.height as int);
        lemma_signed_decimal(b.height as int, a.height as int);
        let xa = signed_decimal(a.x as int);
        let xb = signed_decimal(b.x as int);
        let ya = xa + ","@ + signed_decimal(a.y as int);
        let yb = xb + ","@ + signed_decimal(b.y as int);
        let wa = ya + ","@ + signed_decimal(a.width as int);
        let wb = yb + ","@ + signed_decimal(b.width as int);
        lemma_last_parts_are_equal(
            wa,
            signed_decimal(a.height as int),
            wb,
            signed_decimal(b.height as int),
            'x',
        );
        lemma_last_parts_are_equal(
            ya,
            signed_decimal(a.width as int),
            yb,
            signed_decimal(b.width as int),
            ',',
        );
        lemma_last_parts_are_equal(
            xa,
            signed_decimal(a.y as int),
            xb,
            signed_decimal(b.y as int),
            ',',
        );
    }
}

/// Whether a character occurs in the text of a side and a stretch of it.
spec fn in_stretch(c: char) -> bool {
    in_fixed4(c) || c == '[' || c == ']' || 'a' <= c <= 'z' || 'A' <= c <= 'Z'
}

proof fn lemma_labels(a: Edge, b: Edge)
    ensures
        a.label() == b.label() <==> a == b,
        forall|i: int|
            0 <= i < a.label().len() ==> 'a' <= #[trigger] a.label()[i] <= 'z' || 'A'
                <= a.label()[i] <= 'Z',
{
    reveal_strlit("Left");
    reveal_strlit("Right");
    reveal_strlit("Top");
    reveal_strlit("Bottom");
}

proof fn lemma_stretch_chars(edge: Edge, span: EdgeSpan)
    requires
        proper_span(span),
    ensures
        forall|i: int|
            0 <= i < stretch_text(edge, span).len() ==> in_stretch(
                #[trigger] stretch_text(edge, span)[i],
            ),
{
    reveal_strlit("[");
    reveal_strlit("-");
    reveal_strlit("]");
    lemma_labels(edge, edge);
    lemma_fixed4_chars(span.start);
    lemma_fixed4_chars(span.end);
}

proof fn lemma_label_and_ends(
    label: Seq<char>,
    start: Seq<char>,
    end: Seq<char>,
    other_label: Seq<char>,
    other_start: Seq<char>,
    other_end: Seq<char>,
)
    requires
        label + "["@ + start + "-"@ + end + "]"@ == other_label + "["@ + other_start + "-"@
            + other_end + "]"@,
        !label.contains('['),
        !other_label.contains('['),
    ensures
        label == other_label,
        start + ("-"@ + (end + "]"@)) == other_start + ("-"@ + (other_end + "]"@)),
{
    reveal_strlit("[");
    let both = start + ("-"@ + (end + "]"@));
    let others = other_start + ("-"@ + (other_end + "]"@));
    assert(label + "["@ + start + "-"@ + end + "]"@ =~= label + seq!['['] + both);
    assert(other_label + "["@ + other_start + "-"@ + other_end + "]"@ =~= other_label + seq!['[']
        + others);
    lemma_parts_are_equal(label, both, other_label, others, '[');
}

proof fn lemma_what_follows(lead: Seq<char>, a: Seq<char>, b: Seq<char>)
    requires
        lead + a == lead + b,
    ensures
        a == b,
{
    assert(a =~= (lead + a).skip(lead.len() as int));
    assert(b =~= (lead + b).skip(lead.len() as int));
}

/// The text of a side and a stretch of it tells both.
proof fn lemma_stretch(edge: Edge, span: EdgeSpan, other_edge: Edge, other: EdgeSpan)
    requires
        proper_span(span),
        proper_span(other),
    ensures
        stretch_text(edge, span) == stretch_text(other_edge, other) <==> edge == other_edge
            && fixed4(span.start) == fixed4(other.start) && fixed4(span.end) == fixed4(other.end),
{
    if stretch_text(edge, span) == stretch_text(other_edge, other) {
        assert(!edge.label().contains('[') && !other_edge.label().contains('[')) by {
            lemma_labels(edge, other_edge);
            lemma_labels(other_edge, edge);
        }
        lemma_label_and_ends(
            edge.label(),
            fixed4(span.start),
            fixed4(span.end),
            other_edge.label(),
            fixed4(other.start),
            fixed4(other.end),
        );
        assert(edge == other_edge) by {
            lemma_labels(edge, other_edge);
        }
        let rest = fixed4(span.end) + "]"@;
        let other_rest = fixed4(other.end) + "]"@;
        lemma_fixed4_ends(span.start, "-"@ + rest, other.start, "-"@ + other_rest);
        lemma_what_follows("-"@, rest, other_rest);
        lemma_fixed4_ends(span.end, "]"@, other.end, "]"@);
    }
}

/// Four parts after a colon, a mark, a colon and a mark are told apart from the
/// end, where none of them holds either.
proof fn lemma_four_parts(
    p: Seq<char>,
    a1: Seq<char>,
    a2: Seq<char>,
    a3: Seq<char>,
    a4: Seq<char>,
    q: Seq<char>,
    b1: Seq<char>,
    b2: Seq<char>,
    b3: Seq<char>,
    b4: Seq<char>,
)
    requires
        p + (seq![':'] + a1 + seq!['>'] + a2 + seq![':'] + a3 + seq!['>'] + a4) == q + (seq![':']
            + b1 + seq!['>'] + b2 + seq![':'] + b3 + seq!['>'] + b4),
        !a1.contains(':'),
        !b1.contains(':'),
        !a2.contains('>'),
        !b2.contains('>'),
        !a3.contains(':'),
        !b3.contains(':'),
        !a4.contains('>'),
        !b4.contains('>'),
    ensures
        p == q,
        a1 == b1,
        a2 == b2,
        a3 == b3,
        a4 == b4,
{
    let p1 = p + seq![':'] + a1;
    let q1 = q + seq![':'] + b1;
    let p2 = p1 + seq!['>'] + a2;
    let q2 = q1 + seq!['>'] + b2;
    let p3 = p2 + seq![':'] + a3;
    let q3 = q2 + seq![':'] + b3;
    assert(p + (seq![':'] + a1 + seq!['>'] + a2 + seq![':'] + a3 + seq!['>'] + a4) =~= p3
        + seq!['>'] + a4);
    assert(q + (seq![':'] + b1 + seq!['>'] + b2 + seq![':'] + b3 + seq!['>'] + b4) =~= q3
        + seq!['>'] + b4);
    lemma_last_parts_are_equal(p3, a4, q3, b4, '>');
    lemma_last_parts_are_equal(p2, a3, q2, b3, ':');
    lemma_last_parts_are_equal(p1, a2, q1, b2, '>');
    lemma_last_parts_are_equal(p, a1, q, b1, ':');
}

proof fn lemma_parts_hold_no_separator(target: TargetView)
    requires
        proper(target),
    ensures
        !stretch_text(target.edge, target.local_span).contains(':'),
        !stretch_text(target.remote_edge, target.remote_span).contains('>'),
        !rectangle_text(target.local_screen).contains(':'),
        !rectangle_text(target.remote_screen).contains('>'),
{
    lemma_stretch_chars(target.edge, target.local_span);
    lemma_stretch_chars(target.remote_edge, target.remote_span);
    lemma_rectangle_chars(target.local_screen);
    lemma_rectangle_chars(target.remote_screen);
}

/// What follows a name tells how the target is wired, wherever it stands.
proof fn lemma_tails(p: Seq<char>, a: TargetView, q: Seq<char>, b: TargetView)
    requires
        proper(a),
        proper(b),
        p + tail(a) == q + tail(b),
    ensures
        p == q,
        wired_alike(a, b),
{
    lemma_parts_hold_no_separator(a);
    lemma_parts_hold_no_separator(b);
    lemma_four_parts(
        p,
        stretch_text(a.edge, a.local_span),
        stretch_text(a.remote_edge, a.remote_span),
        rectangle_text(a.local_screen),
        rectangle_text(a.remote_screen),
        q,
        stretch_text(b.edge, b.local_span),
        stretch_text(b.remote_edge, b.remote_span),
        rectangle_text(b.local_screen),
        rectangle_text(b.remote_screen),
    );
    lemma_rectangle(a.remote_screen, b.remote_screen);
    lemma_rectangle(a.local_screen, b.local_screen);
    lemma_stretch(a.remote_edge, a.remote_span, b.remote_edge, b.remote_span);
    lemma_stretch(a.edge, a.local_span, b.edge, b.local_span);
}

// ---------------------------------------------------------------------------
// All targets
// ---------------------------------------------------------------------------
/// Whether two lists of targets lead to the same screens, in the same order.
pub open spec fn all_named_alike(a: Seq<TargetView>, b: Seq<TargetView>) -> bool {
    a.len() == b.len() && forall|i: int| 0 <= i < a.len() ==> named_alike(#[trigger] a[i], b[i])
}

/// Whether two lists of targets are wired the same.
pub open spec fn all_wired_alike(a: Seq<TargetView>, b: Seq<TargetView>) -> bool {
    all_named_alike(a, b) && forall|i: int|
        0 <= i < a.len() ==> wired_alike(#[trigger] a[i], b[i])
}

/// Whether no id in a list of targets holds what separates targets, and none of
/// a device what separates it from the screen.
pub open spec fn plainly_named(targets: Seq<TargetView>) -> bool {
    forall|i: int|
        0 <= i < targets.len() ==> !(#[trigger] targets[i]).device_id.contains('|')
            && !targets[i].device_id.contains(':') && !targets[i].screen_id.contains('|')
}

pub open spec fn all_proper(targets: Seq<TargetView>) -> bool {
    forall|i: int| 0 <= i < targets.len() ==> proper(#[trigger] targets[i])
}

/// What stands before the last target in a fingerprint.
spec fn lead(targets: Seq<TargetView>) -> Seq<char> {
    if targets.len() <= 1 {
        seq![]
    } else {
        fingerprint_of(targets.drop_last()) + seq!['|']
    }
}

proof fn lemma_last_target(targets: Seq<TargetView>)
    requires
        targets.len() > 0,
    ensures
        fingerprint_of(targets) == lead(targets) + head(targets.last()) + tail(targets.last()),
{
    reveal_strlit("|");
    let lines = targets.map_values(|target: TargetView| target_text(target));
    let last = targets.last();
    lemma_head_and_tail(last);
    assert(lines.last() == target_text(last));
    assert(lines.drop_last() =~= targets.drop_last().map_values(
        |target: TargetView| target_text(target),
    ));
    assert("|"@ =~= seq!['|']);
    if targets.len() == 1 {
        assert(lines[0] == lines.last());
    }
    assert(fingerprint_of(targets) =~= lead(targets) + target_text(last));
    assert(lead(targets) + target_text(last) =~= lead(targets) + head(last) + tail(last));
}

proof fn lemma_alike_read_alike(a: Seq<TargetView>, b: Seq<TargetView>)
    requires
        all_proper(a),
        all_proper(b),
        all_wired_alike(a, b),
    ensures
        fingerprint_of(a) == fingerprint_of(b),
{
    let left = a.map_values(|target: TargetView| target_text(target));
    let right = b.map_values(|target: TargetView| target_text(target));
    assert forall|i: int| 0 <= i < a.len() implies left[i] == right[i] by {
        assert(named_alike(a[i], b[i]) && wired_alike(a[i], b[i]));
        lemma_rectangle(a[i].remote_screen, b[i].remote_screen);
        lemma_rectangle(a[i].local_screen, b[i].local_screen);
        lemma_stretch(a[i].remote_edge, a[i].remote_span, b[i].remote_edge, b[i].remote_span);
        lemma_stretch(a[i].edge, a[i].local_span, b[i].edge, b[i].local_span);
    }
    assert(left =~= right);
}

proof fn lemma_read_alike_under_the_same_names(a: Seq<TargetView>, b: Seq<TargetView>)
    requires
        all_proper(a),
        all_proper(b),
        all_named_alike(a, b),
        fingerprint_of(a) == fingerprint_of(b),
    ensures
        all_wired_alike(a, b),
    decreases a.len(),
{
    if a.len() > 0 {
        let n = a.len() - 1;
        let front_a = a.drop_last();
        let front_b = b.drop_last();
        lemma_last_target(a);
        lemma_last_target(b);
        assert(named_alike(a[n], b[n]));
        lemma_tails(lead(a) + head(a.last()), a.last(), lead(b) + head(b.last()), b.last());
        let left = lead(a) + head(a.last());
        let right = lead(b) + head(b.last());
        assert(left.len() == right.len());
        assert(lead(a) =~= left.take(lead(a).len() as int));
        assert(lead(b) =~= right.take(lead(b).len() as int));
        if n > 0 {
            assert(fingerprint_of(front_a) =~= lead(a).drop_last());
            assert(fingerprint_of(front_b) =~= lead(b).drop_last());
            assert forall|i: int| 0 <= i < front_a.len() implies named_alike(
                #[trigger] front_a[i],
                front_b[i],
            ) by {
                assert(named_alike(a[i], b[i]));
            }
            lemma_read_alike_under_the_same_names(front_a, front_b);
        }
        assert forall|i: int| 0 <= i < a.len() implies wired_alike(#[trigger] a[i], b[i]) by {
            if i < n {
                assert(wired_alike(front_a[i], front_b[i]));
            }
        }
    }
}

#[verifier::rlimit(30)]
proof fn lemma_read_alike_under_plain_names(a: Seq<TargetView>, b: Seq<TargetView>)
    requires
        all_proper(a),
        all_proper(b),
        plainly_named(a),
        plainly_named(b),
        fingerprint_of(a) == fingerprint_of(b),
    ensures
        all_wired_alike(a, b),
    decreases a.len(),
{
    law_only_no_targets_leave_no_fingerprint(a);
    law_only_no_targets_leave_no_fingerprint(b);
    if a.len() > 0 {
        let last_a = a.last();
        let last_b = b.last();
        let front_a = a.drop_last();
        let front_b = b.drop_last();
        lemma_last_target(a);
        lemma_last_target(b);
        let left = lead(a) + head(last_a);
        let right = lead(b) + head(last_b);
        lemma_tails(left, last_a, right, last_b);
        assert(!head(last_a).contains('|'));
        assert(!head(last_b).contains('|'));
        if a.len() == 1 {
            assert(left =~= head(last_a));
            if b.len() > 1 {
                assert(right[lead(b).len() - 1] == '|');
            }
            assert(right =~= head(last_b));
        } else {
            if b.len() == 1 {
                assert(right =~= head(last_b));
                assert(left[lead(a).len() - 1] == '|');
            }
            lemma_last_parts_are_equal(
                fingerprint_of(front_a),
                head(last_a),
                fingerprint_of(front_b),
                head(last_b),
                '|',
            );
            lemma_read_alike_under_plain_names(front_a, front_b);
        }
        lemma_parts_are_equal(
            last_a.device_id,
            last_a.screen_id,
            last_b.device_id,
            last_b.screen_id,
            ':',
        );
        assert forall|i: int| 0 <= i < a.len() implies named_alike(#[trigger] a[i], b[i])
            && wired_alike(a[i], b[i]) by {
            if i < a.len() - 1 {
                assert(named_alike(front_a[i], front_b[i]));
                assert(wired_alike(front_a[i], front_b[i]));
            }
        }
    }
}

proof fn lemma_targets_are_proper(
    layout: LayoutState,
    native_layout: LayoutState,
    origin_id: Seq<char>,
    platform: Platform,
)
    ensures
        all_proper(targets_of(layout, native_layout, origin_id, platform)),
{
    let targets = targets_of(layout, native_layout, origin_id, platform);
    assert forall|i: int| 0 <= i < targets.len() implies proper(#[trigger] targets[i]) by {
        law_targets_take_input(layout, native_layout, origin_id, platform, i);
    }
}

/// Two layouts have the same fingerprint exactly where they are wired the same:
/// the same screens over the same sides, the same pixels on either side, and
/// stretches that agree to four decimals. This holds wherever the two lead to
/// the same screens, and else where no id holds a separator.
pub proof fn law_a_fingerprint_tells_the_wiring(
    layout: LayoutState,
    native_layout: LayoutState,
    other: LayoutState,
    other_native: LayoutState,
    origin_id: Seq<char>,
    platform: Platform,
)
    ensures
        ({
            let a = targets_of(layout, native_layout, origin_id, platform);
            let b = targets_of(other, other_native, origin_id, platform);
            all_named_alike(a, b) || (plainly_named(a) && plainly_named(b)) ==> (fingerprint_of(a)
                == fingerprint_of(b) <==> all_wired_alike(a, b))
        }),
{
    let a = targets_of(layout, native_layout, origin_id, platform);
    let b = targets_of(other, other_native, origin_id, platform);
    lemma_targets_are_proper(layout, native_layout, origin_id, platform);
    lemma_targets_are_proper(other, other_native, origin_id, platform);
    if all_wired_alike(a, b) {
        lemma_alike_read_alike(a, b);
    }
    if fingerprint_of(a) == fingerprint_of(b) {
        if all_named_alike(a, b) {
            lemma_read_alike_under_the_same_names(a, b);
        } else if plainly_named(a) && plainly_named(b) {
            lemma_read_alike_under_plain_names(a, b);
        }
    }
}

/// Whether a target crosses elsewhere: over another side, between other pixels,
/// or over a stretch with an end more than a ten-thousandth away.
pub open spec fn rewired(a: TargetView, b: TargetView) -> bool {
    ||| a.edge != b.edge
    ||| a.remote_edge != b.remote_edge
    ||| a.local_screen.rect() != b.local_screen.rect()
    ||| a.remote_screen.rect() != b.remote_screen.rect()
    ||| apart(a.local_span.start, b.local_span.start)
    ||| apart(a.local_span.end, b.local_span.end)
    ||| apart(a.remote_span.start, b.remote_span.start)
    ||| apart(a.remote_span.end, b.remote_span.end)
}

/// A target that crosses elsewhere than before shows in the fingerprint, be it
/// that a screen moved or was resized or that an end of a stretch moved.
pub proof fn law_a_rewired_target_shows(
    layout: LayoutState,
    native_layout: LayoutState,
    other: LayoutState,
    other_native: LayoutState,
    origin_id: Seq<char>,
    platform: Platform,
    i: int,
)
    requires
        ({
            let a = targets_of(layout, native_layout, origin_id, platform);
            let b = targets_of(other, other_native, origin_id, platform);
            all_named_alike(a, b) && 0 <= i < a.len() && rewired(a[i], b[i])
        }),
    ensures
        fingerprint_of(targets_of(layout, native_layout, origin_id, platform)) != fingerprint_of(
            targets_of(other, other_native, origin_id, platform),
        ),
{
    let a = targets_of(layout, native_layout, origin_id, platform);
    let b = targets_of(other, other_native, origin_id, platform);
    lemma_targets_are_proper(layout, native_layout, origin_id, platform);
    lemma_targets_are_proper(other, other_native, origin_id, platform);
    if fingerprint_of(a) == fingerprint_of(b) {
        law_a_fingerprint_tells_the_wiring(
            layout,
            native_layout,
            other,
            other_native,
            origin_id,
            platform,
        );
        assert(wired_alike(a[i], b[i]));
        assert(proper(a[i]) && proper(b[i]));
        lemma_same_fixed4_is_near(a[i].local_span.start, b[i].local_span.start);
        lemma_same_fixed4_is_near(a[i].local_span.end, b[i].local_span.end);
        lemma_same_fixed4_is_near(a[i].remote_span.start, b[i].remote_span.start);
        lemma_same_fixed4_is_near(a[i].remote_span.end, b[i].remote_span.end);
    }
}

// ---------------------------------------------------------------------------
// Changes of a layout
// ---------------------------------------------------------------------------
/// Whether two screens go by one id.
pub open spec fn same_screen(a: Screen, b: Screen) -> bool {
    a.id@ == b.id@
}

/// Whether a device is the same one, equally able to take input, wherever its
/// screens are now.
pub open spec fn same_device(a: Device, b: Device) -> bool {
    &&& a.id@ == b.id@
    &&& is_local(a) == is_local(b)
    &&& takes_input(a) == takes_input(b)
    &&& a.screens@.len() == b.screens@.len()
    &&& forall|k: int|
        0 <= k < a.screens@.len() ==> same_screen(#[trigger] a.screens@[k], b.screens@[k])
}

pub open spec fn same_devices(a: Seq<Device>, b: Seq<Device>) -> bool {
    a.len() == b.len() && forall|i: int| 0 <= i < a.len() ==> same_device(#[trigger] a[i], b[i])
}

/// Whether a link joins the same sides, over whatever stretches.
pub open spec fn same_link(a: LinkView, b: LinkView) -> bool {
    &&& a.a.device_id == b.a.device_id
    &&& a.a.screen_id == b.a.screen_id
    &&& a.a.side == b.a.side
    &&& a.b.device_id == b.b.device_id
    &&& a.b.screen_id == b.b.screen_id
    &&& a.b.side == b.b.side
}

pub open spec fn same_links(a: Seq<LinkView>, b: Seq<LinkView>) -> bool {
    a.len() == b.len() && forall|i: int| 0 <= i < a.len() ==> same_link(#[trigger] a[i], b[i])
}

proof fn lemma_same_own_device(layout: LayoutState, other: LayoutState)
    requires
        same_devices(layout.devices@, other.devices@),
    ensures
        match own_device_of(layout) {
            Some(own) => own_device_of(other) matches Some(own_there) && same_device(
                own,
                own_there,
            ),
            None => own_device_of(other) is None,
        },
{
    let p = |device: Device| is_local(device);
    assert forall|i: int| 0 <= i < layout.devices@.len() implies p(#[trigger] layout.devices@[i])
        == p(other.devices@[i]) by {
        assert(same_device(layout.devices@[i], other.devices@[i]));
    }
    lemma_first_of_both(layout.devices@, other.devices@, p);
}

proof fn lemma_same_reachable_device(layout: LayoutState, other: LayoutState, id: Seq<char>)
    requires
        same_devices(layout.devices@, other.devices@),
    ensures
        match reachable_device(layout, id) {
            Some(device) => reachable_device(other, id) matches Some(device_there) && same_device(
                device,
                device_there,
            ),
            None => reachable_device(other, id) is None,
        },
{
    let p = reachable_as(id);
    assert forall|i: int| 0 <= i < layout.devices@.len() implies p(#[trigger] layout.devices@[i])
        == p(other.devices@[i]) by {
        assert(same_device(layout.devices@[i], other.devices@[i]));
    }
    lemma_first_of_both(layout.devices@, other.devices@, p);
}

proof fn lemma_same_screen_named(a: Device, b: Device, id: Seq<char>)
    requires
        same_device(a, b),
    ensures
        match screen_named(a.screens@, id) {
            Some(screen) => screen_named(b.screens@, id) matches Some(screen_there) && same_screen(
                screen,
                screen_there,
            ),
            None => screen_named(b.screens@, id) is None,
        },
{
    let p = goes_by(id);
    assert forall|k: int| 0 <= k < a.screens@.len() implies p(#[trigger] a.screens@[k]) == p(
        b.screens@[k],
    ) by {
        assert(same_screen(a.screens@[k], b.screens@[k]));
    }
    lemma_first_of_both(a.screens@, b.screens@, p);
}

proof fn lemma_redrawn_target(
    layout: LayoutState,
    native_layout: LayoutState,
    other: LayoutState,
    other_native: LayoutState,
    origin_id: Seq<char>,
    platform: Platform,
    own: Device,
    own_there: Device,
    link: LinkView,
    link_there: LinkView,
)
    requires
        same_devices(layout.devices@, other.devices@),
        same_device(own, own_there),
        same_link(link, link_there),
    ensures
        match target_of_link(layout, native_layout, origin_id, platform, own, link) {
            Some(target) => target_of_link(
                other,
                other_native,
                origin_id,
                platform,
                own_there,
                link_there,
            ) matches Some(target_there) && named_alike(target, target_there),
            None => target_of_link(
                other,
                other_native,
                origin_id,
                platform,
                own_there,
                link_there,
            ) is None,
        },
{
    match link_ends(own.id@, link) {
        None => {},
        Some((local, remote)) => {
            lemma_same_screen_named(own, own_there, local.screen_id);
            lemma_same_reachable_device(layout, other, remote.device_id);
            match reachable_device(layout, remote.device_id) {
                Some(device) => {
                    let device_there = reachable_device(other, remote.device_id)->0;
                    lemma_same_screen_named(device, device_there, remote.screen_id);
                },
                None => {},
            }
        },
    }
}

proof fn lemma_redrawn_targets(
    layout: LayoutState,
    native_layout: LayoutState,
    other: LayoutState,
    other_native: LayoutState,
    origin_id: Seq<char>,
    platform: Platform,
    own: Device,
    own_there: Device,
    links: Seq<LinkView>,
    links_there: Seq<LinkView>,
    n: nat,
)
    requires
        same_devices(layout.devices@, other.devices@),
        same_device(own, own_there),
        same_links(links, links_there),
        n <= links.len(),
    ensures
        all_named_alike(
            targets_of_links(layout, native_layout, origin_id, platform, own, links, n),
            targets_of_links(other, other_native, origin_id, platform, own_there, links_there, n),
        ),
    decreases n,
{
    if n > 0 {
        lemma_redrawn_targets(
            layout,
            native_layout,
            other,
            other_native,
            origin_id,
            platform,
            own,
            own_there,
            links,
            links_there,
            (n - 1) as nat,
        );
        assert(same_link(links[n - 1], links_there[n - 1]));
        lemma_redrawn_target(
            layout,
            native_layout,
            other,
            other_native,
            origin_id,
            platform,
            own,
            own_there,
            links[n - 1],
            links_there[n - 1],
        );
    }
}

/// Moving or resizing screens, and redrawing the stretches of links, leaves the
/// targets of the drawn links the same ones, in the same order. So all that
/// changes in them shows in the fingerprint.
pub proof fn law_redrawing_keeps_the_targets(
    layout: LayoutState,
    native_layout: LayoutState,
    other: LayoutState,
    other_native: LayoutState,
    origin_id: Seq<char>,
    platform: Platform,
)
    requires
        layout.edge_links is Some,
        other.edge_links is Some,
        same_links(links_in_force(layout), links_in_force(other)),
        same_devices(layout.devices@, other.devices@),
    ensures
        all_named_alike(
            targets_of(layout, native_layout, origin_id, platform),
            targets_of(other, other_native, origin_id, platform),
        ),
{
    lemma_same_own_device(layout, other);
    match own_device_of(layout) {
        Some(own) => {
            lemma_redrawn_targets(
                layout,
                native_layout,
                other,
                other_native,
                origin_id,
                platform,
                own,
                own_device_of(other)->0,
                links_in_force(layout),
                links_in_force(other),
                links_in_force(layout).len(),
            );
        },
        None => {},
    }
}

/// Another place or size of a local screen on the compositor shows in the
/// fingerprint, if a target is reached from it, whether links were drawn or not.
pub proof fn law_a_native_screen_shows(
    layout: LayoutState,
    native_layout: LayoutState,
    other_native: LayoutState,
    origin_id: Seq<char>,
    platform: Platform,
    i: int,
)
    requires
        0 <= i < targets_of(layout, native_layout, origin_id, platform).len(),
        targets_of(layout, native_layout, origin_id, platform)[i].local_screen.rect()
            != targets_of(layout, other_native, origin_id, platform)[i].local_screen.rect(),
    ensures
        fingerprint_of(targets_of(layout, native_layout, origin_id, platform)) != fingerprint_of(
            targets_of(layout, other_native, origin_id, platform),
        ),
{
    let own = own_device_of(layout)->0;
    let links = links_in_force(layout);
    lemma_redrawn_targets(
        layout,
        native_layout,
        layout,
        other_native,
        origin_id,
        platform,
        own,
        own,
        links,
        links,
        links.len(),
    );
    law_a_rewired_target_shows(
        layout,
        native_layout,
        layout,
        other_native,
        origin_id,
        platform,
        i,
    );
}

proof fn lemma_secrets_do_not_show(
    layout: LayoutState,
    other: LayoutState,
    native_layout: LayoutState,
    origin_id: Seq<char>,
    platform: Platform,
    own: Device,
    links: Seq<LinkView>,
    n: nat,
)
    requires
        other.devices == layout.devices,
    ensures
        all_wired_alike(
            targets_of_links(layout, native_layout, origin_id, platform, own, links, n),
            targets_of_links(other, native_layout, origin_id, platform, own, links, n),
        ),
    decreases n,
{
    if n > 0 {
        lemma_secrets_do_not_show(
            layout,
            other,
            native_layout,
            origin_id,
            platform,
            own,
            links,
            (n - 1) as nat,
        );
    }
}

/// The cluster and its secret leave the fingerprint alone.
pub proof fn law_secrets_do_not_show(
    layout: LayoutState,
    other: LayoutState,
    native_layout: LayoutState,
    origin_id: Seq<char>,
    platform: Platform,
)
    requires
        other == (LayoutState {
            cluster_id: other.cluster_id,
            pair_secret: other.pair_secret,
            ..layout
        }),
    ensures
        fingerprint_of(targets_of(layout, native_layout, origin_id, platform)) == fingerprint_of(
            targets_of(other, native_layout, origin_id, platform),
        ),
{
    match own_device_of(layout) {
        Some(own) => {
            lemma_secrets_do_not_show(
                layout,
                other,
                native_layout,
                origin_id,
                platform,
                own,
                links_in_force(layout),
                links_in_force(layout).len(),
            );
        },
        None => {},
    }
    lemma_targets_are_proper(layout, native_layout, origin_id, platform);
    lemma_targets_are_proper(other, native_layout, origin_id, platform);
    lemma_alike_read_alike(
        targets_of(layout, native_layout, origin_id, platform),
        targets_of(other, native_layout, origin_id, platform),
    );
}

/// Whether one layout is another after the devices that go by an id went
/// offline.
pub open spec fn went_offline(before: LayoutState, id: Seq<char>, after: LayoutState) -> bool {
    &&& after == (LayoutState { devices: after.devices, ..before })
    &&& after.devices@.len() == before.devices@.len()
    &&& forall|i: int|
        0 <= i < before.devices@.len() ==> #[trigger] after.devices@[i] == (if before.devices@[i].id@
            == id {
            Device { online: false, ..before.devices@[i] }
        } else {
            before.devices@[i]
        })
}

/// Whether two devices are the same one, with the same screens.
spec fn same_place(a: Device, b: Device) -> bool {
    a.id == b.id && a.role == b.role && a.screens == b.screens
}

proof fn lemma_links_of_screen(id: Seq<char>, local: Screen, a: Device, b: Device, n: nat)
    requires
        same_place(a, b),
    ensures
        links_of_screen(id, local, a, n) == links_of_screen(id, local, b, n),
    decreases n,
{
    if n > 0 {
        lemma_links_of_screen(id, local, a, b, (n - 1) as nat);
    }
}

proof fn lemma_links_of_device(own: Device, own_there: Device, a: Device, b: Device, n: nat)
    requires
        same_place(own, own_there),
        same_place(a, b),
    ensures
        links_of_device(own, a, n) == links_of_device(own_there, b, n),
    decreases n,
{
    if n > 0 {
        lemma_links_of_device(own, own_there, a, b, (n - 1) as nat);
        lemma_links_of_screen(own.id@, own.screens@[n - 1], a, b, a.screens@.len());
    }
}

proof fn lemma_links_of_devices(
    own: Device,
    own_there: Device,
    a: Seq<Device>,
    b: Seq<Device>,
    n: nat,
)
    requires
        same_place(own, own_there),
        n <= a.len(),
        a.len() == b.len(),
        forall|i: int| 0 <= i < a.len() ==> same_place(#[trigger] a[i], b[i]),
    ensures
        links_of_devices(own, a, n) == links_of_devices(own_there, b, n),
    decreases n,
{
    if n > 0 {
        assert(same_place(a[n - 1], b[n - 1]));
        lemma_links_of_devices(own, own_there, a, b, (n - 1) as nat);
        lemma_links_of_device(own, own_there, a[n - 1], b[n - 1], own.screens@.len());
    }
}

/// How much a list of targets adds to a fingerprint, separators and all.
spec fn weight(targets: Seq<TargetView>) -> nat
    decreases targets.len(),
{
    if targets.len() == 0 {
        0
    } else {
        weight(targets.drop_last()) + target_text(targets.last()).len() + 1
    }
}

proof fn lemma_weight(targets: Seq<TargetView>)
    ensures
        targets.len() > 0 ==> fingerprint_of(targets).len() + 1 == weight(targets),
        targets.len() == 0 ==> fingerprint_of(targets).len() == 0 && weight(targets) == 0,
    decreases targets.len(),
{
    if targets.len() > 0 {
        lemma_weight(targets.drop_last());
        lemma_last_target(targets);
        lemma_head_and_tail(targets.last());
    }
}

/// Whether a list of targets lost the weight of those that lead to a device.
spec fn lighter(before: Seq<TargetView>, after: Seq<TargetView>, id: Seq<char>) -> bool {
    &&& weight(after) <= weight(before)
    &&& (exists|i: int| 0 <= i < before.len() && (#[trigger] before[i]).device_id == id)
        ==> weight(after) < weight(before)
}

proof fn lemma_lighter_with_one_more(
    before: Seq<TargetView>,
    after: Seq<TargetView>,
    was: Option<TargetView>,
    is: Option<TargetView>,
    id: Seq<char>,
)
    requires
        lighter(before, after, id),
        if was matches Some(target) && target.device_id == id {
            is is None
        } else {
            is == was
        },
    ensures
        lighter(pushed(before, was), pushed(after, is), id),
{
    let more = pushed(before, was);
    let fewer = pushed(after, is);
    if was is Some {
        assert(more.drop_last() =~= before);
    }
    if is is Some {
        assert(fewer.drop_last() =~= after);
    }
    if exists|i: int| 0 <= i < more.len() && (#[trigger] more[i]).device_id == id {
        let i = choose|i: int| 0 <= i < more.len() && (#[trigger] more[i]).device_id == id;
        if i < before.len() {
            assert(before[i].device_id == id);
        }
    }
}

proof fn lemma_fewer_targets(
    layout: LayoutState,
    gone: LayoutState,
    native_layout: LayoutState,
    origin_id: Seq<char>,
    platform: Platform,
    own: Device,
    own_there: Device,
    links: Seq<LinkView>,
    id: Seq<char>,
    n: nat,
)
    requires
        went_offline(layout, id, gone),
        same_place(own, own_there),
    ensures
        lighter(
            targets_of_links(layout, native_layout, origin_id, platform, own, links, n),
            targets_of_links(gone, native_layout, origin_id, platform, own_there, links, n),
            id,
        ),
    decreases n,
{
    if n > 0 {
        let m = (n - 1) as nat;
        lemma_fewer_targets(
            layout,
            gone,
            native_layout,
            origin_id,
            platform,
            own,
            own_there,
            links,
            id,
            m,
        );
        lemma_target_after_loss(
            layout,
            gone,
            native_layout,
            origin_id,
            platform,
            own,
            own_there,
            links[n - 1],
            id,
        );
        lemma_lighter_with_one_more(
            targets_of_links(layout, native_layout, origin_id, platform, own, links, m),
            targets_of_links(gone, native_layout, origin_id, platform, own_there, links, m),
            target_of_link(layout, native_layout, origin_id, platform, own, links[n - 1]),
            target_of_link(gone, native_layout, origin_id, platform, own_there, links[n - 1]),
            id,
        );
    }
}

proof fn lemma_target_after_loss(
    layout: LayoutState,
    gone: LayoutState,
    native_layout: LayoutState,
    origin_id: Seq<char>,
    platform: Platform,
    own: Device,
    own_there: Device,
    link: LinkView,
    id: Seq<char>,
)
    requires
        went_offline(layout, id, gone),
        same_place(own, own_there),
    ensures
        ({
            let was = target_of_link(layout, native_layout, origin_id, platform, own, link);
            let is = target_of_link(gone, native_layout, origin_id, platform, own_there, link);
            if was matches Some(target) && target.device_id == id {
                is is None
            } else {
                is == was
            }
        }),
{
    match link_ends(own.id@, link) {
        None => {},
        Some((_, remote)) => {
            let p = reachable_as(remote.device_id);
            lemma_first(layout.devices@, p);
            lemma_first(gone.devices@, p);
            if remote.device_id == id {
                assert forall|i: int| 0 <= i < gone.devices@.len() implies !p(
                    #[trigger] gone.devices@[i],
                ) by {
                    assert(gone.devices@[i].id@ == layout.devices@[i].id@);
                }
            } else {
                assert forall|i: int| 0 <= i < layout.devices@.len() implies p(
                    #[trigger] layout.devices@[i],
                ) == p(gone.devices@[i]) by {
                    assert(gone.devices@[i].id@ == layout.devices@[i].id@);
                }
                lemma_first_of_both(layout.devices@, gone.devices@, p);
                match first(layout.devices@, p) {
                    Some(device) => {
                        let i = choose|i: int|
                            0 <= i < layout.devices@.len() && #[trigger] layout.devices@[i]
                                == device && p(device) && first(gone.devices@, p) == Some(
                                gone.devices@[i],
                            );
                        assert(gone.devices@[i] == layout.devices@[i]);
                    },
                    None => {},
                }
            }
        },
    }
}

/// A peer that goes offline shows in the fingerprint, if a target leads to it.
pub proof fn law_a_lost_peer_shows(
    layout: LayoutState,
    gone: LayoutState,
    native_layout: LayoutState,
    origin_id: Seq<char>,
    platform: Platform,
    i: int,
)
    requires
        0 <= i < targets_of(layout, native_layout, origin_id, platform).len(),
        went_offline(
            layout,
            targets_of(layout, native_layout, origin_id, platform)[i].device_id,
            gone,
        ),
    ensures
        fingerprint_of(targets_of(layout, native_layout, origin_id, platform)) != fingerprint_of(
            targets_of(gone, native_layout, origin_id, platform),
        ),
{
    let before = targets_of(layout, native_layout, origin_id, platform);
    let after = targets_of(gone, native_layout, origin_id, platform);
    let id = before[i].device_id;
    let p = |device: Device| is_local(device);
    assert forall|k: int| 0 <= k < layout.devices@.len() implies p(#[trigger] layout.devices@[k])
        == p(gone.devices@[k]) && same_place(layout.devices@[k], gone.devices@[k]) by {
        assert(gone.devices@[k].role == layout.devices@[k].role);
    }
    lemma_first_of_both(layout.devices@, gone.devices@, p);
    let own = own_device_of(layout)->0;
    let own_there = own_device_of(gone)->0;
    lemma_links_of_devices(
        own,
        own_there,
        layout.devices@,
        gone.devices@,
        layout.devices@.len(),
    );
    assert(implied_links(layout) == implied_links(gone));
    lemma_fewer_targets(
        layout,
        gone,
        native_layout,
        origin_id,
        platform,
        own,
        own_there,
        links_in_force(layout),
        id,
        links_in_force(layout).len(),
    );
    lemma_weight(before);
    lemma_weight(after);
}

} // verus!
