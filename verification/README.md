# blog-generator

A static blog generator. Posts are markdown files with a YAML frontmatter block; the generator
renders each post, an index of all posts, a page per tag and an index of tags, through a set of
templates.

## Layout

- `src/` is the library, verified with Verus:
  - `parse.rs`: splitting a source into frontmatter and body, math spans, the slug of a post,
    and building a post from its parts (`parse_one`);
  - `markdown.rs`: the markdown events the passes work on, and the markdown parser and HTML
    renderer behind them;
  - `postprocessing/toc.rs`: the table of contents and the anchor ids of headings;
  - `postprocessing/footnote_links.rs`: numbered footnote links and the footnotes section;
  - `index.rs`: posts in date order and the posts of each tag;
  - `render/`: which category lists each tag, the order of the tag index, and the plan of every
    page with what its template is given;
  - `date.rs`, `text.rs`, `utils.rs`, `types.rs`: dates, character helpers, slugs, and the
    values passed between the steps.
- `app/` is the program: it reads the config and the post files, parses frontmatter, renders the
  planned pages with the templates, and writes the site.
- `tests/` exercises the library on concrete inputs.

## Collections

The library keeps its tables in `Vec`s rather than in hash maps or ordered sets:

- the posts of each tag (`SiteIndex.tags`), the tag-to-category table (`TagMap`) and the footnote
  tables are vectors of pairs or triples keyed by text. Verus gives `HashMap` and `BTreeMap`
  contracts that can be used only for keys it can reason about, such as integers; with `String`
  keys even a lookup after an insert cannot be proved. The order in which a `HashMap` is walked
  is also not a function of its contents, so nothing could be stated about pages or lists built
  by walking one. The vectors keep entries in the order in which they first appear, and each
  contract says so; a later footnote definition with a label already seen replaces the earlier
  one, as an insert into a map would.
- the set of heading levels used in a post is a table of 256 flags indexed by level. The rank of
  a level among the levels in use, which the table of contents needs, is the number of flags set
  below it.

## Use

```
ssg <config.toml>
```

The config names `input_dir`, `output_dir` and `templates_dir`, and may list tag `categories`
(each with a `name`, a `color` and its `tags`).
