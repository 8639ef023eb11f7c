use pkmt::document::{
    DocumentComponent, DocumentElement, ListElem, MentionedFile, ParsedDocument,
};
use pkmt::obsidian_parsing::parse_obsidian_text;

#[test]
fn obsidian_parsing_test_admonition() {
    let text = "```ad-note
title: Title
Some text with $x+1$ math...
A new line!
```";

    let res = parse_obsidian_text(text, &None);
    if let Ok(res) = res {
        let props = vec![("title".to_string(), "Title".to_string())];
        let expected = ParsedDocument::ParsedText(vec![DocumentComponent::new(
            DocumentElement::Admonition(
                vec![DocumentComponent::new_text(
                    "Some text with $x+1$ math...\nA new line!",
                )],
                props,
            ),
        )]);
        assert_eq!(res, expected);
    } else {
        panic!("Got {res:?}")
    }
}

#[test]
fn obsidian_parsing_test_text_parsing() {
    let text = "Let $n$ denote the number of vertices in an input graph, and consider any constant $\\epsilon > 0$. Then there does not exist an $O(n^{\\epsilon-1})$-approximation algorithm for the [[MaximumClique|maximum clique problem]], unless P = NP.";
    let res = parse_obsidian_text(text, &None);
    if let Ok(res) = res {
        let expected = ParsedDocument::ParsedText(vec![DocumentComponent::new(DocumentElement::Text("Let $n$ denote the number of vertices in an input graph, and consider any constant $\\epsilon > 0$. Then there does not exist an $O(n^{\\epsilon-1})$-approximation algorithm for the ".to_string())), DocumentComponent::new(DocumentElement::FileLink(MentionedFile::FileName("MaximumClique".to_string()), None, Some("maximum clique problem".to_string()))), DocumentComponent::new(DocumentElement::Text(", unless P = NP.".to_string()))]);
        assert_eq!(res, expected);
    } else {
        panic!("Got {res:?}")
    }
}

#[test]
fn test_newlines() {
    let text = "\t\t\t\t\n## Basic Definitions
![[ApproximationAlgorithm]]

```ad-note
title: Theorem 
Let $n$ denote the number of vertices in an input graph, and consider any constant $\\epsilon > 0$. Then there does not exist an $O(n^{\\epsilon-1})$-approximation algorithm for the [[MaximumClique|maximum clique problem]], unless P = NP.
```

![[PTAS]]
";
    let res = parse_obsidian_text(text, &None);
    if let Ok(res) = res {
        let res = res.to_logseq_text(&None);
        let expected = r"- ## Basic Definitions
    - {{embed [[ApproximationAlgorithm]]}}
    - #+BEGIN_QUOTE
      **Theorem**
      Let $n$ denote the number of vertices in an input graph, and consider any constant $\epsilon > 0$. Then there does not exist an $O(n^{\epsilon-1})$-approximation algorithm for the [[MaximumClique]], unless P = NP.
      #+END_QUOTE
    - {{embed [[PTAS]]}}".to_string();
        assert_eq!(res, expected);
    } else {
        panic!("Got {res:?}")
    }
}

#[test]
fn obsidian_parsing_test_image_embed_conversion() {
    let test_text =
        "variables will become nonzero, so we only need to keep track of these nonzero variables.

#### Initial Algorithm";
    let res = parse_obsidian_text(test_text, &None);
    if let Ok(pd) = res {
        let logseq_text = pd.to_logseq_text(&None);
        let expected_text = "- variables will become nonzero, so we only need to keep track of these nonzero variables.\n- #### Initial Algorithm".to_string();
        assert_eq!(logseq_text, expected_text);
    } else {
        panic!("Error: {res:?}");
    }
}

#[test]
fn test_admonition_in_between() {
    let test_text= "This leads to the following observation.
```ad-note
title: Observation 7.2
For any path $P$ of vertices of degree two in graph $G$, Algorithm 7.2 will choose at most one vertex from $P$; that is, $|S \\cap P| \\leq 1$ for the final solution $S$ given by the algorithm.
```
##### *Proof*
Once $S$ contains a vertex ";
    let res = parse_obsidian_text(test_text, &None);
    if let Ok(pd) = res {
        let logseq_text = pd.to_logseq_text(&None);
        let expected_text = "- This leads to the following observation.\n- #+BEGIN_QUOTE\n  **Observation 7.2**\n  For any path $P$ of vertices of degree two in graph $G$, Algorithm 7.2 will choose at most one vertex from $P$; that is, $|S \\cap P| \\leq 1$ for the final solution $S$ given by the algorithm.\n  #+END_QUOTE\n- ##### *Proof*\n    - Once $S$ contains a vertex".to_string();
        assert_eq!(logseq_text, expected_text);
    } else {
        panic!("Error: {res:?}");
    }
}

#[test]
fn obsidian_parsing_test_simple_list() {
    let text = "- item 1\n- item 2";
    let res = parse_obsidian_text(text, &None);
    let expected = ParsedDocument::ParsedText(vec![DocumentComponent::new(DocumentElement::List(
        vec![
            ListElem {
                contents: ParsedDocument::ParsedText(vec![DocumentComponent::new_text("item 1")]),
                children: vec![],
            },
            ListElem {
                contents: ParsedDocument::ParsedText(vec![DocumentComponent::new_text("item 2")]),
                children: vec![],
            },
        ],
        false,
    ))]);
    if let Ok(pd) = res {
        assert_eq!(pd, expected);
    } else {
        panic!("Error: {res:?}");
    }
}

#[test]
fn obsidian_parsing_test_nested_list() {
    let text = "- item 1\n    - item 1.1\n    - item 1.2\n- item 2\n    -  item 2.1";
    let res = parse_obsidian_text(text, &None);
    if let Ok(pd) = res {
        let res = pd.to_logseq_text(&None);
        assert_eq!(text, res);
    } else {
        panic!("Error: {res:?}");
    }
}

#[test]
fn obsidian_link_with_section_and_rename() {
    let res = parse_obsidian_text("[[Note#Part|shown]]", &None).unwrap();
    let expected = ParsedDocument::ParsedText(vec![DocumentComponent::new(DocumentElement::FileLink(
        MentionedFile::FileName("Note".to_string()),
        Some("Part".to_string()),
        Some("shown".to_string()),
    ))]);
    assert_eq!(res, expected);
}

#[test]
fn obsidian_unclosed_link_is_refused() {
    assert!(parse_obsidian_text("see [[Note", &None).is_err());
}

#[test]
fn obsidian_unknown_character_is_refused() {
    assert!(parse_obsidian_text("a ~ b", &None).is_err());
}
