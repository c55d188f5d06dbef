use vstd::prelude::*;

use crate::codec::{
    head_bytes, head_len, lemma_head_bytes_len, lemma_head_round_trip, lemma_parse_local,
    lemma_parsed_head, parse_head, FileTypeDump, HeadView, Timestamp, HEAD_PREFIX_SIZE,
};
use crate::disk::written;
use crate::fs::{
    create_check, find_spec, head_at, head_size, image_after_create, link_target,
    meta_after_create, new_head,
};
use crate::meta::{meta_bytes, DumbFsMeta, BLOCK_SIZE, ROOT_ADDRESS, SUPERBLOCK_SIZE};
use vstd::utf8::encode_utf8;
use crate::node::{hop_bound, lemma_links_walk, lemma_walk_links, next_of, walk};
use crate::util::{align_up, lemma_align};

verus! {

/// The record at `r` ends at or before `limit`.
pub open spec fn ends_by(img: Seq<u8>, r: u64, limit: int) -> bool {
    r + head_len(head_at(img, r)) <= limit
}

/// The records at the addresses `rs` decode, start past the superblock, end by
/// `limit`, and follow one another: each ends at or before the next begins.
pub open spec fn laid_out(img: Seq<u8>, rs: Seq<u64>, limit: int) -> bool {
    &&& forall|i: int|
        0 <= i < rs.len() ==> (#[trigger] parse_head(img, rs[i] as int)) is Some && SUPERBLOCK_SIZE
            <= rs[i] && ends_by(img, rs[i], limit)
    &&& forall|i: int| 0 < i < rs.len() ==> ends_by(img, rs[i - 1], #[trigger] rs[i] as int)
}

/// The children of the directory at `d`, as `children` walks them.
pub open spec fn children_of(img: Seq<u8>, d: u64) -> Option<Seq<u64>> {
    walk(img, head_at(img, d).fixed.first_child, hop_bound(img))
}

/// The directory at `d` and its children are laid out one after another,
/// the directory first, all ending by `limit` (the next free address).
pub open spec fn tidy_dir(img: Seq<u8>, d: u64, limit: int) -> bool {
    &&& parse_head(img, d as int) is Some
    &&& children_of(img, d) is Some
    &&& laid_out(img, seq![d] + children_of(img, d)->0, limit)
}

proof fn lemma_laid_out_sorted(img: Seq<u8>, rs: Seq<u64>, limit: int, j: int)
    requires
        laid_out(img, rs, limit),
        0 <= j < rs.len(),
    ensures
        forall|i: int| 0 <= i < j ==> ends_by(img, #[trigger] rs[i], rs[j] as int),
        rs[j] >= j,
    decreases j,
{
    assert(parse_head(img, rs[j] as int) is Some);
    if j > 0 {
        lemma_laid_out_sorted(img, rs, limit, j - 1);
        assert(ends_by(img, rs[j - 1], rs[j] as int));
        assert(parse_head(img, rs[j - 1] as int) is Some);
        assert forall|i: int| 0 <= i < j implies ends_by(img, #[trigger] rs[i], rs[j] as int) by {
            if i < j - 1 {
                assert(ends_by(img, rs[i], rs[j - 1] as int));
            }
        }
    }
}

/// A write that misses a record's extent leaves the record decoding as it did.
pub proof fn lemma_write_misses(img: Seq<u8>, w: int, b: Seq<u8>, r: u64)
    requires
        parse_head(img, r as int) is Some,
        0 <= w,
        r + head_len(head_at(img, r)) <= w || w + b.len() <= r,
    ensures
        parse_head(written(img, w, b), r as int) == parse_head(img, r as int),
{
    reveal(written);
    lemma_parsed_head(img, r as int);
    let img2 = written(img, w, b);
    let n = head_len(head_at(img, r));
    assert forall|i: int| r <= i < r + n implies #[trigger] img[i] == img2[i] by {}
    lemma_parse_local(img, img2, r as int);
}

/// A header written at `w` decodes there.
pub proof fn lemma_write_head(img: Seq<u8>, w: int, h: HeadView)
    requires
        0 <= w,
        head_len(h) <= u64::MAX,
    ensures
        parse_head(written(img, w, head_bytes(h)), w) == Some(h),
{
    reveal(written);
    lemma_head_bytes_len(h);
    let img2 = written(img, w, head_bytes(h));
    assert(img2.subrange(w, w + head_len(h)) =~= head_bytes(h));
    lemma_head_round_trip(img2, w, h);
}

/// A write within the superblock or at or past `limit` leaves laid-out
/// records decoding as they did.
proof fn lemma_write_elsewhere(img: Seq<u8>, rs: Seq<u64>, limit: int, w: int, b: Seq<u8>)
    requires
        laid_out(img, rs, limit),
        0 <= w,
        limit <= w || w + b.len() <= SUPERBLOCK_SIZE,
    ensures
        forall|i: int|
            0 <= i < rs.len() ==> parse_head(written(img, w, b), #[trigger] rs[i] as int)
                == parse_head(img, rs[i] as int),
        laid_out(written(img, w, b), rs, limit),
{
    let img2 = written(img, w, b);
    assert forall|i: int| 0 <= i < rs.len() implies parse_head(img2, #[trigger] rs[i] as int)
        == parse_head(img, rs[i] as int) by {
        assert(parse_head(img, rs[i] as int) is Some);
        lemma_write_misses(img, w, b, rs[i]);
    }
    assert forall|i: int| 0 < i < rs.len() implies ends_by(img2, rs[i - 1], #[trigger] rs[i] as int) by {
        assert(parse_head(img2, rs[i - 1] as int) == parse_head(img, rs[i - 1] as int));
        assert(ends_by(img, rs[i - 1], rs[i] as int));
    }
}

/// Writing a header at `limit` adds a record after laid-out ones.
proof fn lemma_add_record(img: Seq<u8>, rs: Seq<u64>, limit: u64, h: HeadView, limit2: int)
    requires
        laid_out(img, rs, limit as int),
        SUPERBLOCK_SIZE <= limit,
        limit + head_len(h) <= limit2,
        head_len(h) <= u64::MAX,
    ensures
        laid_out(written(img, limit as int, head_bytes(h)), rs.push(limit), limit2),
        parse_head(written(img, limit as int, head_bytes(h)), limit as int) == Some(h),
        forall|i: int|
            0 <= i < rs.len() ==> parse_head(
                written(img, limit as int, head_bytes(h)),
                #[trigger] rs[i] as int,
            ) == parse_head(img, rs[i] as int),
{
    let img2 = written(img, limit as int, head_bytes(h));
    lemma_write_elsewhere(img, rs, limit as int, limit as int, head_bytes(h));
    lemma_write_head(img, limit as int, h);
    let rs2 = rs.push(limit);
    assert forall|i: int| 0 <= i < rs2.len() implies (#[trigger] parse_head(img2, rs2[i] as int)) is Some
        && SUPERBLOCK_SIZE <= rs2[i] && ends_by(img2, rs2[i], limit2) by {
        if i < rs.len() {
            assert(rs2[i] == rs[i]);
            assert(parse_head(img2, rs[i] as int) is Some);
            assert(ends_by(img2, rs[i], limit as int));
        }
    }
    assert forall|i: int| 0 < i < rs2.len() implies ends_by(img2, rs2[i - 1], #[trigger] rs2[i] as int) by {
        assert(rs2[i - 1] == rs[i - 1]);
        assert(parse_head(img2, rs[i - 1] as int) is Some);
        if i < rs.len() {
            assert(rs2[i] == rs[i]);
            assert(ends_by(img2, rs[i - 1], rs[i] as int));
        } else {
            assert(ends_by(img2, rs[i - 1], limit as int));
        }
    }
}

/// Rewriting the header of one laid-out record with a header of the same name
/// keeps the layout; the other records decode as they did.
proof fn lemma_rewrite_record(img: Seq<u8>, rs: Seq<u64>, limit: int, k: int, h2: HeadView)
    requires
        laid_out(img, rs, limit),
        limit <= u64::MAX,
        0 <= k < rs.len(),
        h2.name == head_at(img, rs[k]).name,
    ensures
        parse_head(written(img, rs[k] as int, head_bytes(h2)), rs[k] as int) == Some(h2),
        forall|i: int|
            0 <= i < rs.len() && i != k ==> parse_head(
                written(img, rs[k] as int, head_bytes(h2)),
                #[trigger] rs[i] as int,
            ) == parse_head(img, rs[i] as int),
        laid_out(written(img, rs[k] as int, head_bytes(h2)), rs, limit),
{
    let img2 = written(img, rs[k] as int, head_bytes(h2));
    lemma_laid_out_sorted(img, rs, limit, rs.len() - 1);
    assert(parse_head(img, rs[k] as int) is Some);
    lemma_parsed_head(img, rs[k] as int);
    assert(head_len(h2) == head_len(head_at(img, rs[k])));
    lemma_write_head(img, rs[k] as int, h2);
    assert forall|i: int| 0 <= i < rs.len() && i != k implies parse_head(img2, #[trigger] rs[i] as int)
        == parse_head(img, rs[i] as int) by {
        assert(parse_head(img, rs[i] as int) is Some);
        if i < k {
            lemma_laid_out_sorted(img, rs, limit, k);
            assert(ends_by(img, rs[i], rs[k] as int));
        } else {
            lemma_laid_out_sorted(img, rs, limit, i);
            assert(ends_by(img, rs[k], rs[i] as int));
        }
        lemma_write_misses(img, rs[k] as int, head_bytes(h2), rs[i]);
    }
    assert forall|i: int| 0 <= i < rs.len() implies (#[trigger] parse_head(img2, rs[i] as int)) is Some
        && head_len(head_at(img2, rs[i])) == head_len(head_at(img, rs[i])) by {
        if i != k {
            assert(parse_head(img2, rs[i] as int) == parse_head(img, rs[i] as int));
        }
    }
    assert forall|i: int| 0 <= i < rs.len() implies (#[trigger] parse_head(img2, rs[i] as int)) is Some
        && SUPERBLOCK_SIZE <= rs[i] && ends_by(img2, rs[i], limit) by {
        assert(parse_head(img, rs[i] as int) is Some);
        assert(head_len(head_at(img2, rs[i])) == head_len(head_at(img, rs[i])));
    }
    assert forall|i: int| 0 < i < rs.len() implies ends_by(img2, rs[i - 1], #[trigger] rs[i] as int) by {
        assert(parse_head(img2, rs[i - 1] as int) is Some);
        assert(head_len(head_at(img2, rs[i - 1])) == head_len(head_at(img, rs[i - 1])));
        assert(ends_by(img, rs[i - 1], rs[i] as int));
    }
}

/// One creation under a tidy directory: when `create_node` resolves the
/// parent to the directory at `d` and succeeds, the directory's children are
/// the old ones followed by the new node (at the old next free address), and
/// the directory stays tidy up to the new next free address.
#[verifier::rlimit(50)]
pub proof fn lemma_create_appends(
    img: Seq<u8>,
    m: DumbFsMeta,
    parent_ino: u64,
    d: u64,
    name: Seq<char>,
    kind: FileTypeDump,
    now: Timestamp,
)
    requires
        tidy_dir(img, d, m.next_free_address as int),
        find_spec(img, parent_ino) == Ok::<u64, crate::error::FsError>(d),
        create_check(img, m, parent_ino, name) is Ok,
    ensures
        ({
            let img2 = image_after_create(
                img,
                m,
                name,
                kind,
                now,
                create_check(img, m, parent_ino, name)->Ok_0,
            );
            let m2 = meta_after_create(m, name);
            &&& children_of(img2, d) == Some(children_of(img, d)->0.push(m.next_free_address))
            &&& tidy_dir(img2, d, m2.next_free_address as int)
            &&& tidy_dir(img2, m.next_free_address, m2.next_free_address as int)
            &&& head_at(img2, d).fixed.file_attr == head_at(img, d).fixed.file_attr
        }),
{
    reveal(image_after_create);
    reveal(create_check);
    let t = create_check(img, m, parent_ino, name)->Ok_0;
    assert(t == link_target(img, d, m.next_free_address)->Ok_0);
    let big_l = m.next_free_address;
    let newh = new_head(name, kind, m.next_ino, now);
    let hl = head_len(newh);
    assert(hl == head_size(name));
    lemma_align(hl, BLOCK_SIZE as int);
    let m1 = DumbFsMeta {
        next_free_address: (m.next_free_address + align_up(head_size(name), BLOCK_SIZE as int)) as u64,
        ..m
    };
    let m2 = meta_after_create(m, name);
    let limit2 = m2.next_free_address as int;
    let d1 = written(img, 0, meta_bytes(m1));
    let d2 = written(d1, 0, meta_bytes(m2));
    let d3 = written(d2, big_l as int, head_bytes(newh));
    let d4 = written(d3, t.0 as int, head_bytes(t.1));
    assert(d4 == image_after_create(img, m, name, kind, now, t));
    let s = children_of(img, d)->0;
    let rs = seq![d] + s;
    let hd = head_at(img, d);
    lemma_walk_links(img, hd.fixed.first_child, hop_bound(img));
    assert(meta_bytes(m1).len() == SUPERBLOCK_SIZE);
    assert(meta_bytes(m2).len() == SUPERBLOCK_SIZE);
    lemma_write_elsewhere(img, rs, big_l as int, 0, meta_bytes(m1));
    lemma_write_elsewhere(d1, rs, big_l as int, 0, meta_bytes(m2));
    assert(parse_head(img, rs[0] as int) is Some);
    assert(big_l >= SUPERBLOCK_SIZE + HEAD_PREFIX_SIZE) by {
        assert(ends_by(img, rs[0], big_l as int));
    }
    lemma_add_record(d2, rs, big_l, newh, limit2);
    let rs2 = rs.push(big_l);
    let s2 = s.push(big_l);
    assert(rs2 =~= seq![d] + s2);
    // The relinked record is the directory itself or its last child.
    let k: int = if hd.fixed.first_child == 0 {
        0
    } else {
        rs.len() - 1
    };
    if hd.fixed.first_child == 0 {
        assert(s == Seq::<u64>::empty());
    } else {
        assert(rs[rs.len() - 1] == s.last());
    }
    assert(t.0 == rs2[k]);
    assert(parse_head(d3, rs[k] as int) == parse_head(img, rs[k] as int));
    lemma_rewrite_record(d3, rs2, limit2, k, t.1);
    assert(laid_out(d4, rs2, limit2));
    // The walk over the new chain.
    assert forall|i: int| 0 <= i < rs.len() && i != k implies parse_head(d4, #[trigger] rs[i] as int)
        == parse_head(img, rs[i] as int) by {
        assert(rs2[i] == rs[i]);
        assert(parse_head(d4, rs2[i] as int) == parse_head(d3, rs2[i] as int));
    }
    assert(parse_head(d4, big_l as int) == Some(newh)) by {
        assert(rs2[rs.len() as int] == big_l);
    }
    lemma_laid_out_sorted(d4, rs2, limit2, rs2.len() - 1);
    assert(parse_head(d4, rs2[rs2.len() - 1] as int) is Some);
    assert(s2.len() <= hop_bound(d4)) by {
        lemma_parsed_head(d4, big_l as int);
    }
    let hd4 = head_at(d4, d);
    assert forall|i: int| 0 <= i < s2.len() implies s2[i] != 0 && (#[trigger] parse_head(
        d4,
        s2[i] as int,
    )) is Some && next_of(d4, s2[i]) == if i + 1 < s2.len() {
        s2[i + 1]
    } else {
        0
    } by {
        assert(rs2[i + 1] == s2[i]);
        assert(parse_head(d4, rs2[i + 1] as int) is Some);
        if i < s.len() {
            assert(s2[i] == s[i]);
            assert(parse_head(img, s[i] as int) is Some);
            if i + 1 < s.len() {
                assert(rs[i + 1] == s[i]);
                assert(parse_head(d4, rs[i + 1] as int) == parse_head(img, rs[i + 1] as int));
                assert(s2[i + 1] == s[i + 1]);
            } else {
                assert(i + 1 == k);
            }
        }
    }
    if hd.fixed.first_child == 0 {
        assert(hd4.fixed.first_child == big_l);
    } else {
        assert(parse_head(d4, rs[0] as int) == parse_head(img, rs[0] as int));
        assert(s2[0] == hd4.fixed.first_child);
    }
    lemma_links_walk(d4, s2, hop_bound(d4));
    assert(children_of(d4, d) == Some(s2));
    // The new node is a tidy directory with no children.
    assert(head_at(d4, big_l).fixed.first_child == 0);
    assert(children_of(d4, big_l) == Some(Seq::<u64>::empty()));
    assert(seq![big_l] + Seq::<u64>::empty() =~= seq![big_l]);
    assert(parse_head(d4, rs2[rs.len() as int] as int) is Some);
    assert(laid_out(d4, seq![big_l], limit2));
}

/// A freshly initialized image holds a tidy, childless root directory below
/// the initial next free address, and inode 1 resolves to it.
pub proof fn lemma_initial_root(img: Seq<u8>, now: Timestamp)
    ensures
        tidy_dir(crate::fs::initial_image(img, now), ROOT_ADDRESS, crate::fs::initial_meta().next_free_address as int),
        head_at(crate::fs::initial_image(img, now), ROOT_ADDRESS).fixed.file_attr.ino == 1,
        children_of(crate::fs::initial_image(img, now), ROOT_ADDRESS) == Some(Seq::<u64>::empty()),
        find_spec(crate::fs::initial_image(img, now), 1) == Ok::<u64, crate::error::FsError>(ROOT_ADDRESS),
{
    reveal(crate::fs::initial_image);
    let root = new_head(Seq::empty(), FileTypeDump::Directory, 1, now);
    let m1 = DumbFsMeta { next_ino: 2, ..crate::meta::fresh_meta() };
    let d1 = written(img, 0, meta_bytes(m1));
    let d2 = written(d1, 0, meta_bytes(crate::fs::initial_meta()));
    let d3 = written(d2, ROOT_ADDRESS as int, head_bytes(root));
    assert(d3 == crate::fs::initial_image(img, now));
    assert(encode_utf8(Seq::<char>::empty()).len() == 0) by {
        reveal_with_fuel(encode_utf8, 1);
    }
    assert(head_len(root) == HEAD_PREFIX_SIZE);
    lemma_write_head(d2, ROOT_ADDRESS as int, root);
    assert(children_of(d3, ROOT_ADDRESS) == Some(Seq::<u64>::empty()));
    assert(seq![ROOT_ADDRESS] + Seq::<u64>::empty() =~= seq![ROOT_ADDRESS]);
    assert(parse_head(d3, seq![ROOT_ADDRESS][0] as int) is Some);
}

/// Step `k` of a run of creations: `create_node` resolved the parent to the
/// directory at `d`, passed its checks, and turned image and superblock `k`
/// into image and superblock `k + 1`.
pub open spec fn creation_step(
    imgs: Seq<Seq<u8>>,
    ms: Seq<DumbFsMeta>,
    names: Seq<Seq<char>>,
    kinds: Seq<FileTypeDump>,
    nows: Seq<Timestamp>,
    parent_ino: u64,
    d: u64,
    k: int,
) -> bool {
    &&& find_spec(imgs[k], parent_ino) == Ok::<u64, crate::error::FsError>(d)
    &&& create_check(imgs[k], ms[k], parent_ino, names[k]) is Ok
    &&& imgs[k + 1] == image_after_create(
        imgs[k],
        ms[k],
        names[k],
        kinds[k],
        nows[k],
        create_check(imgs[k], ms[k], parent_ino, names[k])->Ok_0,
    )
    &&& ms[k + 1] == meta_after_create(ms[k], names[k])
}

/// Children keep creation order: along a run of successful `create_node`
/// calls under the directory at `d` (each resolving the parent to it),
/// starting with the directory and its children laid out one after another
/// below the next free address, the directory's children become its old
/// children followed by the created nodes in creation order; for a directory
/// that had no children, exactly the created nodes.
pub proof fn lemma_children_in_creation_order(
    imgs: Seq<Seq<u8>>,
    ms: Seq<DumbFsMeta>,
    names: Seq<Seq<char>>,
    kinds: Seq<FileTypeDump>,
    nows: Seq<Timestamp>,
    parent_ino: u64,
    d: u64,
)
    requires
        imgs.len() == names.len() + 1,
        ms.len() == names.len() + 1,
        kinds.len() == names.len(),
        nows.len() == names.len(),
        tidy_dir(imgs[0], d, ms[0].next_free_address as int),
        forall|k: int|
            0 <= k < names.len() ==> #[trigger] creation_step(
                imgs,
                ms,
                names,
                kinds,
                nows,
                parent_ino,
                d,
                k,
            ),
    ensures
        children_of(imgs.last(), d) == Some(
            children_of(imgs[0], d)->0 + Seq::new(names.len(), |k: int| ms[k].next_free_address),
        ),
{
    lemma_creation_prefix(imgs, ms, names, kinds, nows, parent_ino, d, names.len() as int);
}

proof fn lemma_creation_prefix(
    imgs: Seq<Seq<u8>>,
    ms: Seq<DumbFsMeta>,
    names: Seq<Seq<char>>,
    kinds: Seq<FileTypeDump>,
    nows: Seq<Timestamp>,
    parent_ino: u64,
    d: u64,
    j: int,
)
    requires
        imgs.len() == names.len() + 1,
        ms.len() == names.len() + 1,
        kinds.len() == names.len(),
        nows.len() == names.len(),
        0 <= j <= names.len(),
        tidy_dir(imgs[0], d, ms[0].next_free_address as int),
        forall|k: int|
            0 <= k < names.len() ==> #[trigger] creation_step(
                imgs,
                ms,
                names,
                kinds,
                nows,
                parent_ino,
                d,
                k,
            ),
    ensures
        tidy_dir(imgs[j], d, ms[j].next_free_address as int),
        children_of(imgs[j], d) == Some(
            children_of(imgs[0], d)->0 + Seq::new(j as nat, |k: int| ms[k].next_free_address),
        ),
    decreases j,
{
    if j == 0 {
        assert(children_of(imgs[0], d)->0 + Seq::new(0, |k: int| ms[k].next_free_address)
            =~= children_of(imgs[0], d)->0);
    } else {
        let i = j - 1;
        lemma_creation_prefix(imgs, ms, names, kinds, nows, parent_ino, d, i);
        assert(creation_step(imgs, ms, names, kinds, nows, parent_ino, d, i));
        lemma_create_appends(imgs[i], ms[i], parent_ino, d, names[i], kinds[i], nows[i]);
        assert(children_of(imgs[0], d)->0 + Seq::new(j as nat, |k: int| ms[k].next_free_address)
            =~= (children_of(imgs[0], d)->0 + Seq::new(i as nat, |k: int| ms[k].next_free_address)).push(
            ms[i].next_free_address,
        ));
    }
}

/// Children keep creation order, from a fresh image: after
/// `init_filesystem`, along any run of successful `create_node` calls under
/// inode 1, the root's children are exactly the created nodes, in creation
/// order.
pub proof fn lemma_root_children_in_creation_order(
    img: Seq<u8>,
    now: Timestamp,
    imgs: Seq<Seq<u8>>,
    ms: Seq<DumbFsMeta>,
    names: Seq<Seq<char>>,
    kinds: Seq<FileTypeDump>,
    nows: Seq<Timestamp>,
)
    requires
        imgs.len() == names.len() + 1,
        ms.len() == names.len() + 1,
        kinds.len() == names.len(),
        nows.len() == names.len(),
        imgs[0] == crate::fs::initial_image(img, now),
        ms[0] == crate::fs::initial_meta(),
        forall|k: int|
            0 <= k < names.len() ==> #[trigger] root_creation_step(imgs, ms, names, kinds, nows, k),
    ensures
        children_of(imgs.last(), ROOT_ADDRESS) == Some(
            Seq::new(names.len(), |k: int| ms[k].next_free_address),
        ),
{
    lemma_root_prefix(img, now, imgs, ms, names, kinds, nows, names.len() as int);
}

/// Step `k` of a run of creations under inode 1 that passed its checks.
pub open spec fn root_creation_step(
    imgs: Seq<Seq<u8>>,
    ms: Seq<DumbFsMeta>,
    names: Seq<Seq<char>>,
    kinds: Seq<FileTypeDump>,
    nows: Seq<Timestamp>,
    k: int,
) -> bool {
    &&& create_check(imgs[k], ms[k], 1, names[k]) is Ok
    &&& imgs[k + 1] == image_after_create(
        imgs[k],
        ms[k],
        names[k],
        kinds[k],
        nows[k],
        create_check(imgs[k], ms[k], 1, names[k])->Ok_0,
    )
    &&& ms[k + 1] == meta_after_create(ms[k], names[k])
}

proof fn lemma_root_prefix(
    img: Seq<u8>,
    now: Timestamp,
    imgs: Seq<Seq<u8>>,
    ms: Seq<DumbFsMeta>,
    names: Seq<Seq<char>>,
    kinds: Seq<FileTypeDump>,
    nows: Seq<Timestamp>,
    j: int,
)
    requires
        imgs.len() == names.len() + 1,
        ms.len() == names.len() + 1,
        kinds.len() == names.len(),
        nows.len() == names.len(),
        0 <= j <= names.len(),
        imgs[0] == crate::fs::initial_image(img, now),
        ms[0] == crate::fs::initial_meta(),
        forall|k: int|
            0 <= k < names.len() ==> #[trigger] root_creation_step(imgs, ms, names, kinds, nows, k),
    ensures
        tidy_dir(imgs[j], ROOT_ADDRESS, ms[j].next_free_address as int),
        head_at(imgs[j], ROOT_ADDRESS).fixed.file_attr.ino == 1,
        children_of(imgs[j], ROOT_ADDRESS) == Some(
            Seq::new(j as nat, |k: int| ms[k].next_free_address),
        ),
    decreases j,
{
    if j == 0 {
        lemma_initial_root(img, now);
        assert(Seq::new(0, |k: int| ms[k].next_free_address) =~= Seq::<u64>::empty());
    } else {
        let i = j - 1;
        lemma_root_prefix(img, now, imgs, ms, names, kinds, nows, i);
        assert(root_creation_step(imgs, ms, names, kinds, nows, i));
        assert(find_spec(imgs[i], 1) == Ok::<u64, crate::error::FsError>(ROOT_ADDRESS));
        lemma_create_appends(imgs[i], ms[i], 1, ROOT_ADDRESS, names[i], kinds[i], nows[i]);
        assert(Seq::new(j as nat, |k: int| ms[k].next_free_address) =~= Seq::new(
            i as nat,
            |k: int| ms[k].next_free_address,
        ).push(ms[i].next_free_address));
    }
}

} // verus!
