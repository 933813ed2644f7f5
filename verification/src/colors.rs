//! Colors as the configuration writes them (`#RRGGBB`), dimmed shades of
//! them, and the colors of an entry's client and tags.
use vstd::prelude::*;

use crate::config::AppConfig;
use crate::model::{Activity, Client, Project};
use crate::text::chars_of;
use crate::validation::{find_activity, find_client, find_project};

verus! {

/// The value of a hexadecimal digit, in either case.
pub open spec fn hex_value(c: char) -> Option<int> {
    if '0' <= c <= '9' {
        Some(c as int - '0' as int)
    } else if 'a' <= c <= 'f' {
        Some(c as int - 'a' as int + 10)
    } else if 'A' <= c <= 'F' {
        Some(c as int - 'A' as int + 10)
    } else {
        None
    }
}

/// A two-character component read in base 16 as `u8::from_str_radix` reads it:
/// two digits, or a `+` sign and one digit.
pub open spec fn component(a: char, b: char) -> Option<int> {
    match hex_value(b) {
        None => None,
        Some(lo) => if a == '+' {
            Some(lo)
        } else {
            match hex_value(a) {
                Some(hi) => Some(16 * hi + lo),
                None => None,
            }
        },
    }
}

/// The text without one leading `#`.
pub open spec fn without_hash(s: Seq<char>) -> Seq<char> {
    if s.len() > 0 && s[0] == '#' {
        s.skip(1)
    } else {
        s
    }
}

/// The color that `#RRGGBB` (or `RRGGBB`) names: six characters after an
/// optional `#`, read two at a time.
pub open spec fn hex_color(s: Seq<char>) -> Option<(u8, u8, u8)> {
    let h = without_hash(s);
    if h.len() != 6 {
        None
    } else {
        match (component(h[0], h[1]), component(h[2], h[3]), component(h[4], h[5])) {
            (Some(r), Some(g), Some(b)) => Some((r as u8, g as u8, b as u8)),
            _ => None,
        }
    }
}

/// Whether the text is one that reading by byte ranges would cut inside a
/// character: six bytes after the optional `#`, with a character that spans
/// byte 2 or byte 4.
pub open spec fn splits_a_character(s: Seq<char>) -> bool {
    let b = crate::text::utf8(without_hash(s));
    b.len() == 6 && !(vstd::utf8::is_char_boundary(b, 2) && vstd::utf8::is_char_boundary(b, 4))
}

fn hex_value_of(c: char) -> (r: Option<u8>)
    ensures
        match hex_value(c) {
            Some(v) => r == Some(v as u8) && 0 <= v < 16,
            None => r is None,
        },
{
    if '0' <= c && c <= '9' {
        Some((c as u32 - '0' as u32) as u8)
    } else if 'a' <= c && c <= 'f' {
        Some((c as u32 - 'a' as u32 + 10) as u8)
    } else if 'A' <= c && c <= 'F' {
        Some((c as u32 - 'A' as u32 + 10) as u8)
    } else {
        None
    }
}

fn component_of(a: char, b: char) -> (r: Option<u8>)
    ensures
        match component(a, b) {
            Some(v) => r == Some(v as u8) && 0 <= v < 256,
            None => r is None,
        },
{
    match hex_value_of(b) {
        None => None,
        Some(lo) => if a == '+' {
            Some(lo)
        } else {
            match hex_value_of(a) {
                Some(hi) => Some(16 * hi + lo),
                None => None,
            }
        },
    }
}

/// Parse a hex color such as `#FF6B6B` into its red, green and blue parts.
pub fn parse_hex(hex: &str) -> (r: Option<(u8, u8, u8)>)
    requires
        !splits_a_character(hex@),
    ensures
        r == hex_color(hex@),
{
    let v = chars_of(hex);
    let start: usize = if v.len() > 0 && v[0] == '#' {
        1
    } else {
        0
    };
    let ghost h = without_hash(hex@);
    assert(h =~= v@.skip(start as int));
    if v.len() - start != 6 {
        return None;
    }
    let r = component_of(v[start], v[start + 1]);
    let g = component_of(v[start + 2], v[start + 3]);
    let b = component_of(v[start + 4], v[start + 5]);
    match (r, g, b) {
        (Some(r), Some(g), Some(b)) => Some((r, g, b)),
        _ => None,
    }
}

/// Each part scaled to `percent` of itself, kept to its low eight bits.
pub open spec fn dimmed(c: (u8, u8, u8), percent: u8) -> (u8, u8, u8) {
    (
        ((c.0 * percent / 100) % 256) as u8,
        ((c.1 * percent / 100) % 256) as u8,
        ((c.2 * percent / 100) % 256) as u8,
    )
}

fn dim_part(x: u8, percent: u8) -> (r: u8)
    ensures
        r == ((x * percent / 100) % 256) as u8,
{
    assert(x * percent <= 255 * 255) by (nonlinear_arith)
        requires
            x <= 255,
            percent <= 255,
    ;
    let wide: u16 = x as u16 * percent as u16 / 100;
    (wide % 256) as u8
}

/// A darker shade: each part scaled to `percent` of itself.
pub fn dim_rgb(c: (u8, u8, u8), percent: u8) -> (r: (u8, u8, u8))
    ensures
        r == dimmed(c, percent),
{
    (dim_part(c.0, percent), dim_part(c.1, percent), dim_part(c.2, percent))
}

/// The color text of the first client with the id.
pub open spec fn client_color_of(clients: Seq<Client>, id: Seq<char>) -> Option<Seq<char>> {
    if crate::validation::has_client(clients, id) {
        Some(crate::validation::client_with_id(clients, id).color@)
    } else {
        None
    }
}

/// The color of the client with the given id.
pub fn find_client_color(config: &AppConfig, client_id: &str) -> (r: Option<String>)
    ensures
        crate::model::opt_view(r) == client_color_of(config.clients@, client_id@),
{
    match find_client(config, client_id) {
        Some(c) => {
            proof {
                let i = choose|i: int| crate::validation::is_first_client(config.clients@, client_id@, i) && *c == config.clients@[i];
                crate::validation::lemma_first_client(config.clients@, client_id@);
                let k = choose|k: int| crate::validation::is_first_client(config.clients@, client_id@, k);
                crate::validation::lemma_first_client_unique(config.clients@, client_id@, i, k);
            }
            Some(c.color.clone())
        },
        None => None,
    }
}

/// The position of the first project with the id.
pub open spec fn first_project(ps: Seq<Project>, id: Seq<char>) -> Option<int> {
    if exists|i: int| 0 <= i < ps.len() && (#[trigger] ps[i]).id@ == id {
        Some(choose|i: int| 0 <= i < ps.len() && ps[i].id@ == id && forall|j: int| 0 <= j < i ==> (#[trigger] ps[j]).id@ != id)
    } else {
        None
    }
}

/// The position of the first activity with the id.
pub open spec fn first_activity(acts: Seq<Activity>, id: Seq<char>) -> Option<int> {
    if exists|i: int| 0 <= i < acts.len() && (#[trigger] acts[i]).id@ == id {
        Some(choose|i: int| 0 <= i < acts.len() && acts[i].id@ == id && forall|j: int| 0 <= j < i ==> (#[trigger] acts[j]).id@ != id)
    } else {
        None
    }
}

/// The color text of a tag of an entry of the client: that of the client's
/// first project with the tag as id, else of its first activity with it.
pub open spec fn tag_color_of(clients: Seq<Client>, client_id: Seq<char>, tag: Seq<char>) -> Option<Seq<char>> {
    if crate::validation::has_client(clients, client_id) {
        let c = crate::validation::client_with_id(clients, client_id);
        match first_project(c.projects@, tag) {
            Some(i) => Some(c.projects@[i].color@),
            None => match first_activity(c.activities@, tag) {
                Some(i) => Some(c.activities@[i].color@),
                None => None,
            },
        }
    } else {
        None
    }
}

/// The color text of a tag (a project or activity id) of an entry of the client.
pub fn find_tag_color(config: &AppConfig, client_id: &str, tag: &str) -> (r: Option<String>)
    ensures
        crate::model::opt_view(r) == tag_color_of(config.clients@, client_id@, tag@),
{
    let client = match find_client(config, client_id) {
        Some(c) => c,
        None => return None,
    };
    proof {
        let i = choose|i: int| crate::validation::is_first_client(config.clients@, client_id@, i) && *client == config.clients@[i];
        crate::validation::lemma_first_client(config.clients@, client_id@);
        let k = choose|k: int| crate::validation::is_first_client(config.clients@, client_id@, k);
        crate::validation::lemma_first_client_unique(config.clients@, client_id@, i, k);
    }
    if let Some(p) = find_project(client, tag) {
        proof {
            let ps = client.projects@;
            let i = choose|i: int| 0 <= i < ps.len() && *p == ps[i] && p.id@ == tag@ && forall|j: int| 0 <= j < i ==> (#[trigger] ps[j]).id@ != tag@;
            let k = first_project(ps, tag@).unwrap();
            assert(i == k) by {
                if i < k {
                    assert(ps[i].id@ != tag@);
                } else if k < i {
                    assert(ps[k].id@ != tag@);
                }
            }
        }
        return Some(p.color.clone());
    }
    if let Some(a) = find_activity(client, tag) {
        proof {
            let acts = client.activities@;
            let i = choose|i: int| 0 <= i < acts.len() && *a == acts[i] && a.id@ == tag@ && forall|j: int| 0 <= j < i ==> (#[trigger] acts[j]).id@ != tag@;
            let k = first_activity(acts, tag@).unwrap();
            assert(i == k) by {
                if i < k {
                    assert(acts[i].id@ != tag@);
                } else if k < i {
                    assert(acts[k].id@ != tag@);
                }
            }
        }
        return Some(a.color.clone());
    }
    None
}

} // verus!
