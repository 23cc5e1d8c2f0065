//! Conversion from an annotated-pages file to a PDF document.

use vstd::prelude::*;
use crate::model::File;
use crate::pdf::{
    doc_sorted, has_catalog, lemma_doc_sorted_push, push_ascii, push_dec_u64, Catalog, Content,
    Document, ImageXObject, Page, PageContents, Pages, PdfId, StandardFont,
};

verus! {

/// The IDs of the objects every document has: the catalog, the page tree
/// root, and the four standard fonts.
pub open spec fn common_id_count() -> int {
    6
}

/// Converts an annotated-pages file to a PDF document.
///
/// The document holds the catalog at ID 1, the page tree root at ID 2, the
/// four Times font variants at IDs 3 through 6, and for the page with index
/// `i` a page object at ID `7 + 3 i` followed by the scanned background image
/// at the next ID; the image object replaces the page contents stream under
/// that ID, as the insertion order has it.
#[verifier::loop_isolation(false)]
#[verifier::rlimit(100)]
pub fn file_to_pdf(file: &File) -> (r: Document)
    requires
        file.pages@.len() < 0x1000000000000,
        forall|i: int| 0 <= i < file.pages@.len() ==> !((#[trigger] file.pages@[i]).scanned_image.density_unit
            is NoUnit),
        forall|i: int| 0 <= i < file.pages@.len() ==> (#[trigger] file.pages@[i]).scanned_image.density_x
            > 0,
        forall|i: int| 0 <= i < file.pages@.len() ==> (#[trigger] file.pages@[i]).scanned_image.density_y
            > 0,
    ensures
        r.objects@.len() == common_id_count() + 2 * file.pages@.len(),
        doc_sorted(r.objects@),
        has_catalog(r.objects@),
        r.objects@.last().0.0 < u64::MAX,
        r.objects@[0].0 == PdfId(1),
        (r.objects@[0].1 matches Content::Catalog(c) && c.root_pages_id == PdfId(2)
            && c.lang == file.default_language),
        r.objects@[1].0 == PdfId(2),
        (r.objects@[1].1 matches Content::Pages(p) && p.children@.len() == file.pages@.len()
            && (forall|i: int| 0 <= i < file.pages@.len() ==> #[trigger] p.children@[i]
                == PdfId((common_id_count() + 1 + 3 * i) as u64))),
        forall|i: int| 0 <= i < file.pages@.len() ==> (#[trigger] r.objects@[
            common_id_count() + 2 * i]).0.0 == common_id_count() + 1 + 3 * i,
        forall|i: int| 0 <= i < file.pages@.len() ==> ((#[trigger] r.objects@[
            common_id_count() + 2 * i]).1 matches Content::Page(p) && p.parent == PdfId(2)
            && p.contents == Some(PdfId((common_id_count() + 2 + 3 * i) as u64))
            && p.xobject_refs@.len() == 1 && p.xobject_refs@[0].0@ == "Im0"@
            && p.xobject_refs@[0].1 == PdfId((common_id_count() + 3 + 3 * i) as u64)
            && p.font_refs@.len() == 4
            && p.font_refs@[0].0@ == "F0"@ && p.font_refs@[0].1 == PdfId(3)
            && p.font_refs@[1].0@ == "F1"@ && p.font_refs@[1].1 == PdfId(4)
            && p.font_refs@[2].0@ == "F2"@ && p.font_refs@[2].1 == PdfId(5)
            && p.font_refs@[3].0@ == "F3"@ && p.font_refs@[3].1 == PdfId(6)),
        (r.objects@[2].1 matches Content::StandardFont(f) && f.name@ == "Times-Regular"@),
        (r.objects@[3].1 matches Content::StandardFont(f) && f.name@ == "Times-Italic"@),
        (r.objects@[4].1 matches Content::StandardFont(f) && f.name@ == "Times-Bold"@),
        (r.objects@[5].1 matches Content::StandardFont(f) && f.name@ == "Times-BoldItalic"@),
        forall|i: int| 0 <= i < file.pages@.len() ==> (#[trigger] r.objects@[
            common_id_count() + 2 * i + 1]).0.0 == common_id_count() + 2 + 3 * i,
        forall|i: int| 0 <= i < file.pages@.len() ==> ((#[trigger] r.objects@[
            common_id_count() + 2 * i + 1]).1 matches Content::ImageXObject(x)
            && x.width == file.pages@[i].scanned_image.width as u64
            && x.height == file.pages@[i].scanned_image.height as u64
            && x.bits_per_component == file.pages@[i].scanned_image.bit_depth
            && x.data@ == file.pages@[i].scanned_image.data@),
{
    proof {
        reveal_strlit("q ");
        reveal_strlit(" 0 0 ");
        reveal_strlit(" 0 0 cm/Im0 Do Q");
        reveal_strlit("Times-Regular");
        reveal_strlit("Times-Italic");
        reveal_strlit("Times-Bold");
        reveal_strlit("Times-BoldItalic");
        reveal_strlit("Im0");
        reveal_strlit("F0");
        reveal_strlit("F1");
        reveal_strlit("F2");
        reveal_strlit("F3");
    }
    let mut objects: Vec<(PdfId, Content)> = Vec::new();

    let pages_children_count = file.pages.len();
    let mut pages_children: Vec<PdfId> = Vec::new();
    let mut page_index: usize = 0;
    while page_index < pages_children_count
        invariant
            page_index <= file.pages@.len(),
            pages_children_count == file.pages@.len(),
            pages_children@.len() == page_index,
            forall|i: int| 0 <= i < page_index ==> #[trigger] pages_children@[i] == PdfId(
                (common_id_count() + 1 + 3 * i) as u64),
        decreases pages_children_count - page_index,
    {
        pages_children.push(PdfId(1 + 6 + 3 * (page_index as u64)));
        page_index = page_index + 1;
    }

    let catalog = Catalog {
        root_pages_id: PdfId(2),
        lang: match &file.default_language {
            Some(l) => Some(l.clone()),
            None => None,
        },
    };
    proof {
        lemma_doc_sorted_push(objects@, (PdfId(1), Content::Catalog(catalog)));
    }
    objects.push((PdfId(1), Content::Catalog(catalog)));
    let ghost o1 = objects@;
    let pages_node = Pages { children: pages_children };
    proof {
        lemma_doc_sorted_push(o1, (PdfId(2), Content::Pages(pages_node)));
    }
    objects.push((PdfId(2), Content::Pages(pages_node)));
    let font_regular = StandardFont { name: "Times-Regular".to_owned() };
    proof {
        lemma_doc_sorted_push(objects@, (PdfId(3), Content::StandardFont(font_regular)));
    }
    objects.push((PdfId(3), Content::StandardFont(font_regular)));
    let font_italic = StandardFont { name: "Times-Italic".to_owned() };
    proof {
        lemma_doc_sorted_push(objects@, (PdfId(4), Content::StandardFont(font_italic)));
    }
    objects.push((PdfId(4), Content::StandardFont(font_italic)));
    let font_bold = StandardFont { name: "Times-Bold".to_owned() };
    proof {
        lemma_doc_sorted_push(objects@, (PdfId(5), Content::StandardFont(font_bold)));
    }
    objects.push((PdfId(5), Content::StandardFont(font_bold)));
    let font_bold_italic = StandardFont { name: "Times-BoldItalic".to_owned() };
    proof {
        lemma_doc_sorted_push(objects@, (PdfId(6), Content::StandardFont(font_bold_italic)));
    }
    objects.push((PdfId(6), Content::StandardFont(font_bold_italic)));

    let mut page_index: usize = 0;
    while page_index < file.pages.len()
        invariant
            page_index <= file.pages@.len(),
            objects@.len() == common_id_count() + 2 * page_index,
            doc_sorted(objects@),
            objects@.len() > 0,
            page_index == 0 ==> objects@.last().0.0 == 6,
            page_index > 0 ==> objects@.last().0.0 == 5 + 3 * page_index,
            forall|k: int| 0 <= k < 6 ==> (#[trigger] objects@[k]).0.0 == k + 1,
            objects@[0] == (PdfId(1), Content::Catalog(Catalog {
                root_pages_id: PdfId(2),
                lang: file.default_language,
            })),
            (objects@[1].1 matches Content::Pages(p) && p.children@.len() == file.pages@.len()
                && (forall|i: int| 0 <= i < file.pages@.len() ==> #[trigger] p.children@[i]
                    == PdfId((common_id_count() + 1 + 3 * i) as u64))),
            forall|i: int| 0 <= i < page_index ==> (#[trigger] objects@[
                common_id_count() + 2 * i]).0.0 == common_id_count() + 1 + 3 * i,
            forall|i: int| 0 <= i < page_index ==> ((#[trigger] objects@[
                common_id_count() + 2 * i]).1 matches Content::Page(p) && p.parent == PdfId(2)
                && p.contents == Some(PdfId((common_id_count() + 2 + 3 * i) as u64))
                && p.xobject_refs@.len() == 1 && p.xobject_refs@[0].0@ == "Im0"@
                && p.xobject_refs@[0].1 == PdfId((common_id_count() + 3 + 3 * i) as u64)
                && p.font_refs@.len() == 4
                && p.font_refs@[0].0@ == "F0"@ && p.font_refs@[0].1 == PdfId(3)
                && p.font_refs@[1].0@ == "F1"@ && p.font_refs@[1].1 == PdfId(4)
                && p.font_refs@[2].0@ == "F2"@ && p.font_refs@[2].1 == PdfId(5)
                && p.font_refs@[3].0@ == "F3"@ && p.font_refs@[3].1 == PdfId(6)),
            (objects@[2].1 matches Content::StandardFont(f) && f.name@ == "Times-Regular"@),
            (objects@[3].1 matches Content::StandardFont(f) && f.name@ == "Times-Italic"@),
            (objects@[4].1 matches Content::StandardFont(f) && f.name@ == "Times-Bold"@),
            (objects@[5].1 matches Content::StandardFont(f) && f.name@ == "Times-BoldItalic"@),
            forall|i: int| 0 <= i < page_index ==> (#[trigger] objects@[
                common_id_count() + 2 * i + 1]).0.0 == common_id_count() + 2 + 3 * i,
            forall|i: int| 0 <= i < page_index ==> ((#[trigger] objects@[
                common_id_count() + 2 * i + 1]).1 matches Content::ImageXObject(x)
                && x.width == file.pages@[i].scanned_image.width as u64
                && x.height == file.pages@[i].scanned_image.height as u64
                && x.bits_per_component == file.pages@[i].scanned_image.bit_depth
                && x.data@ == file.pages@[i].scanned_image.data@),
        decreases file.pages@.len() - page_index,
    {
        let page = &file.pages[page_index];
        let page_pdf_id: u64 = 1 + 6 + 3 * (page_index as u64);

        let width_pt = match page.scanned_image.density_unit.try_to_points(
            page.scanned_image.width,
            page.scanned_image.density_x,
        ) {
            Some(v) => v,
            None => {
                proof {
                    assert(false);
                }
                0
            },
        };
        let height_pt = match page.scanned_image.density_unit.try_to_points(
            page.scanned_image.height,
            page.scanned_image.density_y,
        ) {
            Some(v) => v,
            None => {
                proof {
                    assert(false);
                }
                0
            },
        };

        let mut xobject_refs: Vec<(String, PdfId)> = Vec::new();
        xobject_refs.push(("Im0".to_owned(), PdfId(page_pdf_id + 2)));
        let mut font_refs: Vec<(String, PdfId)> = Vec::new();
        font_refs.push(("F0".to_owned(), PdfId(3)));
        font_refs.push(("F1".to_owned(), PdfId(4)));
        font_refs.push(("F2".to_owned(), PdfId(5)));
        font_refs.push(("F3".to_owned(), PdfId(6)));

        let pdf_page = Page {
            parent: PdfId(2),
            width_pt,
            height_pt,
            contents: Some(PdfId(page_pdf_id + 1)),
            xobject_refs,
            font_refs,
        };
        proof {
            lemma_doc_sorted_push(objects@, (PdfId(page_pdf_id), Content::Page(pdf_page)));
        }
        objects.push((PdfId(page_pdf_id), Content::Page(pdf_page)));

        // place the image, then the annotations, then the artifacts
        let mut commands: Vec<u8> = Vec::new();
        push_ascii(&mut commands, "q ");
        push_dec_u64(&mut commands, width_pt);
        push_ascii(&mut commands, " 0 0 ");
        push_dec_u64(&mut commands, height_pt);
        push_ascii(&mut commands, " 0 0 cm/Im0 Do Q");
        let mut k: usize = 0;
        while k < page.annotations.len()
            decreases page.annotations@.len() - k,
        {
            page.annotations[k].write_drawing_commands(&mut commands);
            k = k + 1;
        }
        let mut k: usize = 0;
        while k < page.artifacts.len()
            decreases page.artifacts@.len() - k,
        {
            page.artifacts[k].write_drawing_commands(&mut commands);
            k = k + 1;
        }
        let content = PageContents { commands };

        let image_data = vstd::slice::slice_to_vec(page.scanned_image.data.as_slice());
        let image = ImageXObject {
            width: page.scanned_image.width as u64,
            height: page.scanned_image.height as u64,
            color_space: page.scanned_image.color_space.as_pdf_name().to_owned(),
            bits_per_component: page.scanned_image.bit_depth,
            interpolate: true,
            data_filters: vec!["DCTDecode".to_owned()],
            data: image_data,
        };
        // the image object replaces the page contents stream under this ID,
        // as the insertion order has it
        let _ = content;
        proof {
            lemma_doc_sorted_push(objects@, (PdfId((page_pdf_id + 1) as u64),
                Content::ImageXObject(image)));
        }
        objects.push((PdfId(page_pdf_id + 1), Content::ImageXObject(image)));

        page_index = page_index + 1;
    }

    Document { objects }
}

} // verus!
