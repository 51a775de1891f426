//! Photos attached to graves, members and clans.
use vstd::prelude::*;
use crate::db::{ClanTrailDb, DbView, concat_str, key_is_not};
use crate::error::{AppError, db_error, not_found};
use crate::models::{EntityType, Image, NewImage, entity_type_name, entity_type_parse, new_uuid, now_iso};
use crate::sort::{order_rows, push_str_key, sorted_rows, str_key};
use crate::store::{Keyed, has_key, lookup, position, retain_where, lemma_filter_unique, lemma_same_keys_unique};
use crate::text::{str_eq, string_of};

verus! {

/// `i` is the row stored for a new photo under `id` at `now`.
pub open spec fn stored_as(i: Image, input: NewImage, id: String, now: String) -> bool {
    &&& i.id == id
    &&& i.entity_type@ == entity_type_name(input.entity_type)
    &&& i.entity_id == input.entity_id
    &&& i.file_path == input.file_path
    &&& i.caption == input.caption
    &&& i.is_cover == input.is_cover
    &&& i.created_at == now
    &&& i.version == 1
    &&& !i.deleted
}

/// Photos of one entity are listed by creation time.
pub open spec fn image_order(i: Image) -> Seq<u64> {
    str_key(i.created_at@)
}

pub open spec fn image_of(ty: Seq<char>, entity_id: Seq<char>) -> spec_fn(Image) -> bool {
    |i: Image| i.entity_type@ == ty && i.entity_id@ == entity_id
}

/// The rows a cover change touches: with `is_cover`, every photo of the
/// target's entity; without, the target alone.
pub open spec fn affects(i: Image, t: Image, is_cover: bool) -> bool {
    if is_cover {
        i.entity_type@ == t.entity_type@ && i.entity_id@ == t.entity_id@
    } else {
        i.id@ == t.id@
    }
}

pub open spec fn cover_affects(t: Image, is_cover: bool) -> spec_fn(Image) -> bool {
    |i: Image| affects(i, t, is_cover)
}

/// A touched row after a cover change: it is the cover exactly when it is the
/// target and a cover was asked for; its version is incremented.
pub open spec fn covered(i: Image, t: Image, is_cover: bool) -> Image {
    Image { is_cover: is_cover && i.id@ == t.id@, version: (i.version + 1) as u32, ..i }
}

pub open spec fn after_cover(images: Seq<Image>, t: Image, is_cover: bool) -> Seq<Image> {
    images.map_values(|i: Image| if cover_affects(t, is_cover)(i) { covered(i, t, is_cover) } else { i })
}

/// What a cover change leaves and answers, from the store `v0` to `v1`: an
/// unknown photo is not found; when a touched photo's version counter is
/// full, nothing changes and the answer is a database error; otherwise the
/// touched photos are changed as `after_cover` says and the answer is the
/// target as stored (an error when its entity type is not one of the known
/// names, with the change made all the same).
pub open spec fn cover_outcome(v0: DbView, id: Seq<char>, is_cover: bool, v1: DbView, r: Result<Image, AppError>)
    -> bool {
    match lookup(v0.images, id) {
        None => v1 == v0 && not_found(r, "image "@ + id),
        Some(t) => if exists|k: int| 0 <= k < v0.images.len() && #[trigger] affects(v0.images[k], t, is_cover)
            && v0.images[k].version == u32::MAX {
            v1 == v0 && db_error(r)
        } else {
            &&& v1 == (DbView { images: after_cover(v0.images, t, is_cover), ..v0 })
            &&& match entity_type_parse(t.entity_type@) {
                Some(_) => r == Ok::<Image, AppError>(covered(t, t, is_cover)),
                None => r matches Err(AppError::General(m)) && m@ == "unknown entity_type "@ + t.entity_type@,
            }
        },
    }
}

fn image_key(i: &Image) -> (k: Vec<u64>)
    ensures
        k@ == image_order(*i),
{
    let mut k: Vec<u64> = Vec::new();
    push_str_key(&mut k, i.created_at.as_str());
    k
}

impl ClanTrailDb {
    /// Adds a photo under the given id, stamped with `now`.
    pub fn insert_image(&mut self, input: NewImage, id: String, now: String) -> (r: Result<Image, AppError>)
        ensures
            has_key(old(self)@.images, id@) ==> (db_error(r) && final(self)@ == old(self)@),
            !has_key(old(self)@.images, id@) ==> {
                &&& r matches Ok(i)
                &&& stored_as(i, input, id, now)
                &&& final(self)@ == (DbView { images: old(self)@.images.push(i), ..old(self)@ })
            },
    {
        if position(self.images(), id.as_str()).is_some() {
            return Err(AppError::Database(concat_str("UNIQUE constraint failed: ", "images.id")));
        }
        let image = Image {
            id: id,
            entity_type: string_of(input.entity_type.as_str()),
            entity_id: input.entity_id,
            file_path: input.file_path,
            caption: input.caption,
            is_cover: input.is_cover,
            created_at: now,
            version: 1,
            deleted: false,
        };
        self.push_image(image.duplicate());
        Ok(image)
    }

    /// Attaches a photo to an entity, with a fresh id and the current time.
    pub fn add_image(&mut self, input: NewImage) -> (r: Result<Image, AppError>)
        ensures
            match r {
                Ok(i) => stored_as(i, input, i.id, i.created_at) && !has_key(old(self)@.images, i.id@)
                    && final(self)@ == (DbView { images: old(self)@.images.push(i), ..old(self)@ }),
                Err(e) => e is Database && final(self)@ == old(self)@,
            },
            old(self)@.images.len() == 0 ==> r is Ok,
    {
        let id = new_uuid();
        let now = now_iso();
        self.insert_image(input, id, now)
    }

    pub fn get_image(&self, id: &str) -> (r: Result<Image, AppError>)
        ensures
            match lookup(self@.images, id@) {
                Some(i) => r == Ok::<Image, AppError>(i),
                None => not_found(r, "image "@ + id@),
            },
    {
        match position(self.images(), id) {
            Some(i) => Ok(self.images()[i].duplicate()),
            None => Err(AppError::NotFound(concat_str("image ", id))),
        }
    }

    /// The photos of one entity, by creation time.
    pub fn list_images_by_entity(&self, entity_type: EntityType, entity_id: &str)
        -> (r: Result<Vec<Image>, AppError>)
        ensures
            r matches Ok(v) && sorted_rows(self@.images.filter(image_of(entity_type_name(entity_type), entity_id@)),
                |i: Image| image_order(i), v@),
    {
        let ty = entity_type.as_str();
        let rows = retain_where(self.images(),
            |i: &Image| -> (b: bool) ensures b == image_of(entity_type_name(entity_type), entity_id@)(*i) {
                str_eq(i.entity_type.as_str(), ty) && str_eq(i.entity_id.as_str(), entity_id)
            },
            Ghost(image_of(entity_type_name(entity_type), entity_id@)));
        Ok(order_rows(rows, |i: &Image| -> (k: Vec<u64>) ensures k@ == image_order(*i) { image_key(i) },
            Ghost(|i: Image| image_order(i))))
    }

    /// Deletes one photo.
    pub fn delete_image(&mut self, id: &str) -> (r: Result<(), AppError>)
        ensures
            final(self)@ == (DbView { images: old(self)@.images.filter(key_is_not::<Image>(id@)), ..old(self)@ }),
            has_key(old(self)@.images, id@) ==> r is Ok,
            !has_key(old(self)@.images, id@) ==> not_found(r, "image "@ + id@),
    {
        let ghost v = self@;
        let found = position(self.images(), id).is_some();
        let images = retain_where(self.images(),
            |i: &Image| -> (b: bool) ensures b == (i.id@ != id@) { !str_eq(i.id.as_str(), id) },
            Ghost(key_is_not::<Image>(id@)));
        proof { lemma_filter_unique(v.images, key_is_not::<Image>(id@)); }
        self.set_images(images);
        if !found {
            return Err(AppError::NotFound(concat_str("image ", id)));
        }
        Ok(())
    }

    /// Marks a photo as its entity's cover (unmarking the entity's other
    /// photos), or unmarks it; returns the photo as stored afterwards.
    pub fn set_image_cover(&mut self, id: &str, is_cover: bool) -> (r: Result<Image, AppError>)
        ensures
            cover_outcome(old(self)@, id@, is_cover, final(self)@, r),
    {
        let ghost v = self@;
        let ti = match position(self.images(), id) {
            Some(i) => i,
            None => return Err(AppError::NotFound(concat_str("image ", id))),
        };
        let t = self.images()[ti].duplicate();
        assert(lookup(v.images, id@) == Some(t));
        let n = self.images().len();
        // refuse before changing anything when a version would overflow
        let mut k: usize = 0;
        while k < n
            invariant
                n == v.images.len(),
                self@ == v,
                old(self)@ == v,
                lookup(v.images, id@) == Some(t),
                k <= n,
                forall|j: int| 0 <= j < k ==> !(#[trigger] affects(v.images[j], t, is_cover) && v.images[j].version == u32::MAX),
            decreases n - k,
        {
            let row = &self.images()[k];
            let hit = if is_cover {
                str_eq(row.entity_type.as_str(), t.entity_type.as_str())
                    && str_eq(row.entity_id.as_str(), t.entity_id.as_str())
            } else {
                str_eq(row.id.as_str(), t.id.as_str())
            };
            assert(hit == affects(v.images[k as int], t, is_cover));
            if hit && row.version == u32::MAX {
                assert(affects(v.images[k as int], t, is_cover) && v.images[k as int].version == u32::MAX);
                assert(v == old(self)@);
                return Err(AppError::Database(concat_str("integer out of range: ", "images.version")));
            }
            k = k + 1;
        }
        let mut out: Vec<Image> = Vec::new();
        let mut k: usize = 0;
        while k < n
            invariant
                n == v.images.len(),
                self@ == v,
                old(self)@ == v,
                lookup(v.images, id@) == Some(t),
                k <= n,
                forall|j: int| 0 <= j < n ==> !(#[trigger] affects(v.images[j], t, is_cover) && v.images[j].version == u32::MAX),
                out@.len() == k,
                forall|j: int| 0 <= j < k ==> #[trigger] out@[j] == (if affects(v.images[j], t, is_cover) {
                    covered(v.images[j], t, is_cover) } else { v.images[j] }),
            decreases n - k,
        {
            let row = self.images()[k].duplicate();
            let hit = if is_cover {
                str_eq(row.entity_type.as_str(), t.entity_type.as_str())
                    && str_eq(row.entity_id.as_str(), t.entity_id.as_str())
            } else {
                str_eq(row.id.as_str(), t.id.as_str())
            };
            assert(hit == affects(v.images[k as int], t, is_cover));
            if hit {
                assert(row.version != u32::MAX);
                let is_target = str_eq(row.id.as_str(), t.id.as_str());
                let new = Image {
                    id: row.id,
                    entity_type: row.entity_type,
                    entity_id: row.entity_id,
                    file_path: row.file_path,
                    caption: row.caption,
                    is_cover: is_cover && is_target,
                    created_at: row.created_at,
                    version: row.version + 1,
                    deleted: row.deleted,
                };
                out.push(new);
            } else {
                out.push(row);
            }
            k = k + 1;
        }
        proof {
            assert(out@ =~= after_cover(v.images, t, is_cover));
            assert forall|j: int| 0 <= j < out@.len() implies #[trigger] out@[j].key() == v.images[j].key() by {}
            lemma_same_keys_unique(v.images, out@);
        }
        let target = out[ti].duplicate();
        self.set_images(out);
        match EntityType::from_str(t.entity_type.as_str()) {
            Some(_) => Ok(target),
            None => Err(AppError::General(concat_str("unknown entity_type ", t.entity_type.as_str()))),
        }
    }
}

} // verus!
