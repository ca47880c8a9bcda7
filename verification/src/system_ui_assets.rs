//! Per-system background assets: the file names a background request
//! walks, in order, under the assets directory: the system's own folder
//! first, then the `_baseline` fallback, each over the kind's extensions
//! in priority order.
use vstd::prelude::*;
use crate::text::{chars_of, contains, owned, push_str, str_eq, string_of};

verus! {

/// The extensions walked for a background kind, in priority order:
/// still images for `default`, videos for `animated`.
pub open spec fn background_exts(kind: Seq<char>) -> Option<Seq<Seq<char>>> {
    if kind == "default"@ {
        Some(seq!["png"@, "jpg"@, "jpeg"@, "webp"@])
    } else if kind == "animated"@ {
        Some(seq!["webm"@, "mp4"@])
    } else {
        None
    }
}

/// A system id that could leave the assets directory.
pub open spec fn escapes(system_id: Seq<char>) -> bool {
    contains(system_id, "/"@) || contains(system_id, "\\"@) || system_id == ".."@
}

/// `system-ui/<slug>/backgrounds/<basename>.<ext>`.
pub open spec fn background_path(slug: Seq<char>, basename: Seq<char>, ext: Seq<char>) -> Seq<char> {
    "system-ui/"@ + slug + "/backgrounds/"@ + basename + seq!['.'] + ext
}

/// The candidate files for one slug, in extension order.
pub open spec fn slug_candidates(slug: Seq<char>, basename: Seq<char>, exts: Seq<Seq<char>>) -> Seq<Seq<char>> {
    exts.map_values(|e: Seq<char>| background_path(slug, basename, e))
}

/// The candidate files of a background request, in the order they are
/// tried; none for a system id that could leave the assets directory.
pub open spec fn background_candidates_of(system_id: Seq<char>, kind: Seq<char>, exts: Seq<Seq<char>>) -> Seq<Seq<char>> {
    if escapes(system_id) {
        Seq::empty()
    } else {
        slug_candidates(system_id, kind, exts) + slug_candidates("_baseline"@, kind, exts)
    }
}

pub open spec fn string_views(v: Seq<String>) -> Seq<Seq<char>> {
    v.map_values(|s: String| s@)
}

fn push_candidates(out: &mut Vec<String>, slug: &str, basename: &str, exts: &[&str])
    ensures
        string_views(final(out)@) == string_views(old(out)@) + slug_candidates(
            slug@,
            basename@,
            exts@.map_values(|e: &str| e@),
        ),
{
    let ghost start = string_views(out@);
    let ghost ev = exts@.map_values(|e: &str| e@);
    let mut i: usize = 0;
    while i < exts.len()
        invariant
            i <= exts.len(),
            ev == exts@.map_values(|e: &str| e@),
            string_views(out@) == start + slug_candidates(slug@, basename@, ev.take(i as int)),
        decreases exts.len() - i,
    {
        let mut p: Vec<char> = Vec::new();
        push_str(&mut p, "system-ui/");
        push_str(&mut p, slug);
        push_str(&mut p, "/backgrounds/");
        push_str(&mut p, basename);
        p.push('.');
        push_str(&mut p, exts[i]);
        let ghost before = out@;
        out.push(string_of(&p));
        proof {
            assert(p@ =~= background_path(slug@, basename@, exts@[i as int]@));
            assert(ev.take(i + 1) =~= ev.take(i as int).push(ev[i as int]));
            assert(string_views(out@) =~= string_views(before).push(p@));
            assert(slug_candidates(slug@, basename@, ev.take(i + 1)) =~= slug_candidates(
                slug@,
                basename@,
                ev.take(i as int),
            ).push(background_path(slug@, basename@, ev[i as int])));
        }
        i += 1;
    }
    assert(ev.take(exts.len() as int) =~= ev);
}

/// The files a background request tries, in order, relative to the
/// assets directory: the system's own folder, then `_baseline`, each over
/// the kind's extensions. An unknown kind is an error naming it; a system
/// id with a path separator or equal to `..` tries nothing.
pub fn background_candidates(system_id: &str, kind: &str) -> (r: Result<Vec<String>, String>)
    ensures
        match background_exts(kind@) {
            None => r matches Err(e) && e@ == "unknown background kind: "@ + kind@,
            Some(exts) => r matches Ok(v) && string_views(v@) == background_candidates_of(
                system_id@,
                kind@,
                exts,
            ),
        },
{
    let exts: &[&str] = if str_eq(kind, "default") {
        let e: &[&str] = &["png", "jpg", "jpeg", "webp"];
        assert(e@.map_values(|x: &str| x@) =~= seq!["png"@, "jpg"@, "jpeg"@, "webp"@]);
        e
    } else if str_eq(kind, "animated") {
        let e: &[&str] = &["webm", "mp4"];
        assert(e@.map_values(|x: &str| x@) =~= seq!["webm"@, "mp4"@]);
        e
    } else {
        let mut m: Vec<char> = Vec::new();
        push_str(&mut m, "unknown background kind: ");
        push_str(&mut m, kind);
        return Err(string_of(&m));
    };
    let cs = chars_of(system_id);
    let escapes_dir = crate::text::contains_seq(&cs, &chars_of("/")) || crate::text::contains_seq(
        &cs,
        &chars_of("\\"),
    ) || str_eq(system_id, "..");
    let mut out: Vec<String> = Vec::new();
    assert(string_views(out@) =~= Seq::<Seq<char>>::empty());
    if !escapes_dir {
        push_candidates(&mut out, system_id, kind, exts);
        push_candidates(&mut out, "_baseline", kind, exts);
    }
    Ok(out)
}

} // verus!
