//! The picture that goes with a code for pairing.

use crate::channel;
use crate::json;
use crate::json::{Json, JsonView};
use crate::text;
use crate::tools::requests;
use vstd::prelude::*;

verus! {

/// How wide and high a picture is at least, in pixels.
pub const PICTURE_SIDE: u32 = 200;

/// The QR code of a text as an SVG picture with its margin, at least so many pixels wide and high;
/// nothing where the text is too long for a QR code.
pub uninterp spec fn qr_svg_of(data: Seq<char>, side: u32) -> Option<Seq<char>>;

/// `qrcode::QrCode::new` encodes a text and its renderer draws the code as SVG, with the quiet zone
/// and at least `side` pixels wide and high. What comes out depends on the text and the size alone
/// and is called `qr_svg_of`.
#[verifier::external_body]
fn qr_svg(data: &str, side: u32) -> (r: Option<String>)
    requires
        side <= 0x1_0000,
    ensures
        channel::opt_view(r) == qr_svg_of(data@, side),
{
    let code = qrcode::QrCode::new(data).ok()?;
    let mut renderer = code.render::<qrcode::render::svg::Color>();
    Some(renderer.min_dimensions(side, side).quiet_zone(true).build())
}

/// The members with one of them set, from the position `i` on: in its place where it is there, else
/// at the end.
pub open spec fn member_set(
    members: Seq<(Seq<char>, JsonView)>,
    name: Seq<char>,
    value: JsonView,
    i: int,
) -> Seq<(Seq<char>, JsonView)>
    decreases members.len() - i,
{
    if i < 0 || i >= members.len() {
        members.push((name, value))
    } else if members[i].0 == name {
        members.update(i, (name, value))
    } else {
        member_set(members, name, value, i + 1)
    }
}

/// What the web interface is told of a pairing: the picture is the member `qr_svg`, where there is
/// one and what is told is an object.
pub open spec fn with_picture(payload: JsonView, svg: Option<Seq<char>>) -> JsonView {
    match (payload, svg) {
        (JsonView::Object(members), Some(picture)) => JsonView::Object(
            member_set(members, "qr_svg"@, JsonView::Text(picture), 0),
        ),
        _ => payload,
    }
}

fn set_member(members: &mut Vec<(String, Json)>, name: &str, value: Json)
    ensures
        json::member_views(final(members)@) == member_set(
            json::member_views(old(members)@),
            name@,
            value@,
            0,
        ),
{
    let ghost all = json::member_views(members@);
    let mut i: usize = 0;
    while i < members.len()
        invariant
            i <= members@.len(),
            members@ == old(members)@,
            all == json::member_views(members@),
            member_set(all, name@, value@, 0) == member_set(all, name@, value@, i as int),
        decreases members@.len() - i,
    {
        assert(all[i as int].0 == members@[i as int].0@);
        if text::str_eq(members[i].0.as_str(), name) {
            members.set(i, (name.to_string(), value));
            assert(json::member_views(members@) =~= all.update(i as int, (name@, value@)));
            return;
        }
        i += 1;
    }
    requests::push_member(members, name, value);
}

/// Adds a picture to what the web interface is told.
pub fn add_picture(payload: Json, svg: Option<String>) -> (r: Json)
    ensures
        r@ == with_picture(payload@, channel::opt_view(svg)),
{
    let ghost before = payload@;
    match (payload, svg) {
        (Json::Object(members), Some(picture)) => {
            let mut members = members;
            assert(before->Object_0 =~= json::member_views(members@));
            set_member(&mut members, "qr_svg", Json::Text(picture));
            Json::of_members(members)
        },
        (payload, _) => payload,
    }
}

/// Adds the picture of a pairing code to what the web interface is told of it.
pub fn show_pairing(payload: Json, qr_data: &str) -> (r: Json)
    ensures
        r@ == with_picture(payload@, qr_svg_of(qr_data@, PICTURE_SIDE)),
{
    add_picture(payload, qr_svg(qr_data, PICTURE_SIDE))
}

} // verus!
