//! Read-only product snapshots: the catalog data the checkout validates and
//! prices against. Prices are integer minor units (cents); discounts are
//! integer basis points. The snapshot carries the variant images used to
//! resolve a display image; authoritative stock lives in the ledger.

use vstd::prelude::*;

use crate::ledger::{clone_color, spec_color_view};
use crate::money::FULL_PRICE_BP;

verus! {

#[derive(Debug)]
pub struct ProductImage {
    pub product_id: i32,
    pub image_uuid: String,
    pub color: Option<String>,
    pub is_primary: bool,
    pub extension: String,
}

#[derive(Debug)]
pub struct ProductSnapshot {
    pub id: i32,
    pub name: String,
    pub enabled: bool,
    pub price_cents: u64,
    pub discount_bp: u32,
    pub images: Vec<ProductImage>,
}

impl ProductSnapshot {
    /// A discount is at most 100 percent.
    pub open spec fn wf(self) -> bool {
        self.discount_bp <= FULL_PRICE_BP
    }
}

/// Copies a product image; the copy equals the original.
pub fn clone_image(img: &ProductImage) -> (r: ProductImage)
    ensures
        r == *img,
{
    ProductImage {
        product_id: img.product_id,
        image_uuid: img.image_uuid.clone(),
        color: clone_color(&img.color),
        is_primary: img.is_primary,
        extension: img.extension.clone(),
    }
}

/// The index of the first product with the given id, or -1 if absent.
pub open spec fn spec_find_product(products: Seq<ProductSnapshot>, id: i32) -> int
    decreases products.len(),
{
    if products.len() == 0 {
        -1
    } else if products.first().id == id {
        0
    } else {
        let rest = spec_find_product(products.drop_first(), id);
        if rest == -1 {
            -1
        } else {
            rest + 1
        }
    }
}

/// If no product in the first `i` positions has the id and position `i`
/// does, the first match is at `i`.
pub proof fn lemma_find_product_at(products: Seq<ProductSnapshot>, id: i32, i: int)
    requires
        0 <= i < products.len(),
        products[i].id == id,
        forall|k: int| 0 <= k < i ==> (#[trigger] products[k]).id != id,
    ensures
        spec_find_product(products, id) == i,
    decreases i,
{
    if i > 0 {
        lemma_find_product_at(products.drop_first(), id, i - 1);
    }
}

/// If no product has the id, the lookup reports absence.
pub proof fn lemma_find_product_none(products: Seq<ProductSnapshot>, id: i32)
    requires
        forall|k: int| 0 <= k < products.len() ==> (#[trigger] products[k]).id != id,
    ensures
        spec_find_product(products, id) == -1,
    decreases products.len(),
{
    if products.len() > 0 {
        lemma_find_product_none(products.drop_first(), id);
    }
}

/// Finds a product by id, mirroring `spec_find_product`.
pub fn find_product<'a>(products: &'a Vec<ProductSnapshot>, id: i32) -> (r: Option<
    &'a ProductSnapshot,
>)
    ensures
        ({
            let idx = spec_find_product(products@, id);
            match r {
                Some(p) => idx >= 0 && *p == products@[idx],
                None => idx == -1,
            }
        }),
{
    let n = products.len();
    let mut i: usize = 0;
    while i < n
        invariant
            n == products@.len(),
            0 <= i <= n,
            forall|k: int| 0 <= k < i ==> (#[trigger] products@[k]).id != id,
        decreases n - i,
    {
        if products[i].id == id {
            proof {
                lemma_find_product_at(products@, id, i as int);
            }
            return Some(&products[i]);
        }
        i += 1;
    }
    proof {
        lemma_find_product_none(products@, id);
    }
    None
}

/// Whether the images carry two distinct colour variants: the case in which
/// a cart line must name one.
pub open spec fn spec_has_two_colors(images: Seq<ProductImage>) -> bool {
    exists|i: int, j: int|
        0 <= i < images.len() && 0 <= j < images.len() && (#[trigger] images[i]).color is Some
            && (#[trigger] images[j]).color is Some && spec_color_view(images[i].color)
            != spec_color_view(images[j].color)
}

/// Decides `spec_has_two_colors`.
pub fn has_two_colors(images: &Vec<ProductImage>) -> (r: bool)
    ensures
        r == spec_has_two_colors(images@),
{
    let n = images.len();
    let mut i: usize = 0;
    while i < n
        invariant
            n == images@.len(),
            0 <= i <= n,
            forall|a: int, b: int|
                0 <= a < i && 0 <= b < n && (#[trigger] images@[a]).color is Some
                    && (#[trigger] images@[b]).color is Some ==> spec_color_view(images@[a].color)
                    == spec_color_view(images@[b].color),
        decreases n - i,
    {
        let mut j: usize = 0;
        while j < n
            invariant
                n == images@.len(),
                0 <= i < n,
                0 <= j <= n,
                forall|a: int, b: int|
                    0 <= a < i && 0 <= b < n && (#[trigger] images@[a]).color is Some
                        && (#[trigger] images@[b]).color is Some ==> spec_color_view(
                        images@[a].color,
                    ) == spec_color_view(images@[b].color),
                forall|b: int|
                    0 <= b < j && (#[trigger] images@[b]).color is Some && images@[i as int].color
                        is Some ==> spec_color_view(images@[i as int].color) == spec_color_view(
                        images@[b].color,
                    ),
            decreases n - j,
        {
            if images[i].color.is_some() && images[j].color.is_some() {
                if !crate::ledger::color_eq(&images[i].color, &images[j].color) {
                    return true;
                }
            }
            j += 1;
        }
        i += 1;
    }
    false
}

/// The index of the first image with the given colour, or -1.
pub open spec fn spec_find_image_color(images: Seq<ProductImage>, color: Seq<char>) -> int
    decreases images.len(),
{
    if images.len() == 0 {
        -1
    } else if spec_color_view(images.first().color) == Some(color) {
        0
    } else {
        let rest = spec_find_image_color(images.drop_first(), color);
        if rest == -1 {
            -1
        } else {
            rest + 1
        }
    }
}

/// The index of the first image flagged primary, or -1.
pub open spec fn spec_find_primary(images: Seq<ProductImage>) -> int
    decreases images.len(),
{
    if images.len() == 0 {
        -1
    } else if images.first().is_primary {
        0
    } else {
        let rest = spec_find_primary(images.drop_first());
        if rest == -1 {
            -1
        } else {
            rest + 1
        }
    }
}

/// The display image the checkout resolves for a line: the first image with
/// the chosen colour; without a chosen colour, the first primary image, and
/// failing that the first image of all. -1 when nothing matches.
pub open spec fn spec_resolve_image(images: Seq<ProductImage>, color: Option<Seq<char>>) -> int {
    match color {
        Some(c) => spec_find_image_color(images, c),
        None => {
            let p = spec_find_primary(images);
            if p >= 0 {
                p
            } else if images.len() > 0 {
                0
            } else {
                -1
            }
        },
    }
}

proof fn lemma_find_image_color_at(images: Seq<ProductImage>, color: Seq<char>, i: int)
    requires
        0 <= i < images.len(),
        spec_color_view(images[i].color) == Some(color),
        forall|k: int|
            0 <= k < i ==> spec_color_view((#[trigger] images[k]).color) != Some(color),
    ensures
        spec_find_image_color(images, color) == i,
    decreases i,
{
    if i > 0 {
        lemma_find_image_color_at(images.drop_first(), color, i - 1);
    }
}

proof fn lemma_find_image_color_none(images: Seq<ProductImage>, color: Seq<char>)
    requires
        forall|k: int|
            0 <= k < images.len() ==> spec_color_view((#[trigger] images[k]).color) != Some(color),
    ensures
        spec_find_image_color(images, color) == -1,
    decreases images.len(),
{
    if images.len() > 0 {
        lemma_find_image_color_none(images.drop_first(), color);
    }
}

proof fn lemma_find_primary_at(images: Seq<ProductImage>, i: int)
    requires
        0 <= i < images.len(),
        images[i].is_primary,
        forall|k: int| 0 <= k < i ==> !(#[trigger] images[k]).is_primary,
    ensures
        spec_find_primary(images) == i,
    decreases i,
{
    if i > 0 {
        lemma_find_primary_at(images.drop_first(), i - 1);
    }
}

proof fn lemma_find_primary_none(images: Seq<ProductImage>)
    requires
        forall|k: int| 0 <= k < images.len() ==> !(#[trigger] images[k]).is_primary,
    ensures
        spec_find_primary(images) == -1,
    decreases images.len(),
{
    if images.len() > 0 {
        lemma_find_primary_none(images.drop_first());
    }
}

/// Resolves the display image for a line, mirroring `spec_resolve_image`.
pub fn resolve_image<'a>(images: &'a Vec<ProductImage>, color: &Option<String>) -> (r: Option<
    &'a ProductImage,
>)
    ensures
        ({
            let idx = spec_resolve_image(images@, spec_color_view(*color));
            match r {
                Some(img) => idx >= 0 && *img == images@[idx],
                None => idx == -1,
            }
        }),
{
    let n = images.len();
    match color {
        Some(c) => {
            let mut i: usize = 0;
            while i < n
                invariant
                    n == images@.len(),
                    0 <= i <= n,
                    spec_color_view(*color) == Some(c@),
                    forall|k: int|
                        0 <= k < i ==> spec_color_view((#[trigger] images@[k]).color) != Some(c@),
                decreases n - i,
            {
                let matches_color = match &images[i].color {
                    Some(ic) => crate::text::str_eq(ic.as_str(), c.as_str()),
                    None => false,
                };
                if matches_color {
                    proof {
                        lemma_find_image_color_at(images@, c@, i as int);
                    }
                    return Some(&images[i]);
                }
                i += 1;
            }
            proof {
                lemma_find_image_color_none(images@, c@);
            }
            None
        },
        None => {
            let mut i: usize = 0;
            while i < n
                invariant
                    n == images@.len(),
                    0 <= i <= n,
                    *color is None,
                    forall|k: int| 0 <= k < i ==> !(#[trigger] images@[k]).is_primary,
                decreases n - i,
            {
                if images[i].is_primary {
                    proof {
                        lemma_find_primary_at(images@, i as int);
                    }
                    return Some(&images[i]);
                }
                i += 1;
            }
            proof {
                lemma_find_primary_none(images@);
            }
            if n > 0 {
                Some(&images[0])
            } else {
                None
            }
        },
    }
}

} // verus!
