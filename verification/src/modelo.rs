//! Tipos del catálogo y su modelo matemático.
use vstd::prelude::*;

verus! {

/// Un libro del catálogo, identificado por su ISBN.
pub struct Libro {
    pub isbn: u32,
    pub titulo: String,
}

/// Un nodo del árbol AVL: un libro, sus dos subárboles y la altura guardada del subárbol
/// que empieza en él (una hoja tiene altura 1).
pub struct Nodo {
    pub libro: Libro,
    pub izquierdo: Option<Box<Nodo>>,
    pub derecho: Option<Box<Nodo>>,
    pub altura: i32,
}

/// El mayor de dos enteros.
pub open spec fn mayor(a: int, b: int) -> int {
    if a >= b { a } else { b }
}

/// La altura verdadera de un árbol: 0 el vacío, 1 más la del subárbol más alto si no.
pub open spec fn altura_real(t: Option<Box<Nodo>>) -> nat
    decreases t,
{
    match t {
        None => 0,
        Some(n) => (1 + mayor(
            altura_real(n.izquierdo) as int,
            altura_real(n.derecho) as int,
        )) as nat,
    }
}

/// La altura guardada en la raíz de un árbol, o 0 si está vacío.
pub open spec fn altura_guardada(t: Option<Box<Nodo>>) -> int {
    match t {
        None => 0,
        Some(n) => n.altura as int,
    }
}

/// El factor de balance de un nodo: altura verdadera del subárbol izquierdo menos la
/// del derecho.
pub open spec fn factor(n: Nodo) -> int {
    altura_real(n.izquierdo) - altura_real(n.derecho)
}

/// El contenido de un árbol: a cada ISBN presente, el libro que lo lleva.
pub open spec fn contenido(t: Option<Box<Nodo>>) -> Map<u32, Libro>
    decreases t,
{
    match t {
        None => Map::empty(),
        Some(n) => contenido(n.izquierdo).union_prefer_right(contenido(n.derecho)).insert(
            n.libro.isbn,
            n.libro,
        ),
    }
}

/// Los libros de un árbol en orden: subárbol izquierdo, raíz, subárbol derecho.
pub open spec fn en_orden(t: Option<Box<Nodo>>) -> Seq<Libro>
    decreases t,
{
    match t {
        None => Seq::empty(),
        Some(n) => en_orden(n.izquierdo).push(n.libro) + en_orden(n.derecho),
    }
}

/// El libro del nodo más a la izquierda de un árbol no vacío.
pub open spec fn extremo_izquierdo(n: Nodo) -> Libro
    decreases n,
{
    match n.izquierdo {
        Some(l) => extremo_izquierdo(*l),
        None => n.libro,
    }
}

/// `n` con su altura recalculada a partir de las guardadas en sus hijos.
pub open spec fn con_altura_actualizada(n: Nodo) -> Nodo {
    Nodo {
        altura: (1 + mayor(altura_guardada(n.izquierdo), altura_guardada(n.derecho))) as i32,
        ..n
    }
}

/// Número de nodos de un árbol.
pub open spec fn tamano(t: Option<Box<Nodo>>) -> nat
    decreases t,
{
    match t {
        None => 0,
        Some(n) => 1 + tamano(n.izquierdo) + tamano(n.derecho),
    }
}

/// Orden de árbol binario de búsqueda: en cada nodo, los ISBN del subárbol izquierdo
/// son menores y los del derecho mayores que el suyo.
pub open spec fn ordenado(t: Option<Box<Nodo>>) -> bool
    decreases t,
{
    match t {
        None => true,
        Some(n) => {
            &&& ordenado(n.izquierdo)
            &&& ordenado(n.derecho)
            &&& forall|k: u32| #[trigger]
                contenido(n.izquierdo).contains_key(k) ==> k < n.libro.isbn
            &&& forall|k: u32| #[trigger]
                contenido(n.derecho).contains_key(k) ==> n.libro.isbn < k
        },
    }
}

/// En cada nodo la altura guardada es la verdadera.
pub open spec fn alturas_correctas(t: Option<Box<Nodo>>) -> bool
    decreases t,
{
    match t {
        None => true,
        Some(n) => {
            &&& alturas_correctas(n.izquierdo)
            &&& alturas_correctas(n.derecho)
            &&& n.altura == altura_real(t)
        },
    }
}

/// En cada nodo las alturas de los dos subárboles difieren a lo sumo en uno.
pub open spec fn equilibrado(t: Option<Box<Nodo>>) -> bool
    decreases t,
{
    match t {
        None => true,
        Some(n) => {
            &&& equilibrado(n.izquierdo)
            &&& equilibrado(n.derecho)
            &&& -1 <= factor(*n) <= 1
        },
    }
}

/// Un árbol AVL bien formado: ordenado, con alturas correctas y equilibrado.
pub open spec fn es_avl(t: Option<Box<Nodo>>) -> bool {
    &&& ordenado(t)
    &&& alturas_correctas(t)
    &&& equilibrado(t)
}

/// Donde las alturas son correctas, la guardada en la raíz es la verdadera.
pub proof fn lema_altura_guardada(t: Option<Box<Nodo>>)
    requires
        alturas_correctas(t),
    ensures
        altura_guardada(t) == altura_real(t),
{
}

/// `s` sin los libros de ISBN `k`, en el mismo orden.
pub open spec fn sin_isbn(s: Seq<Libro>, k: u32) -> Seq<Libro> {
    s.filter(|l: Libro| l.isbn != k)
}

/// Quitar los libros de un ISBN reparte sobre la concatenación y sobre un libro añadido.
pub proof fn lema_sin_isbn_partes(a: Seq<Libro>, x: Libro, b: Seq<Libro>, k: u32)
    ensures
        sin_isbn(a.push(x) + b, k) == if x.isbn != k {
            sin_isbn(a, k).push(x) + sin_isbn(b, k)
        } else {
            sin_isbn(a, k) + sin_isbn(b, k)
        },
{
    let p = |l: Libro| l.isbn != k;
    Seq::filter_distributes_over_add(a.push(x), b, p);
    a.lemma_filter_push(x, p);
}

/// Sin libros de ISBN `k`, quitarlos no cambia nada.
pub proof fn lema_sin_isbn_ausente(s: Seq<Libro>, k: u32)
    requires
        forall|i: int| 0 <= i < s.len() ==> #[trigger] s[i].isbn != k,
    ensures
        sin_isbn(s, k) == s,
    decreases s.len(),
{
    if s.len() > 0 {
        let p = |l: Libro| l.isbn != k;
        let a = s.drop_last();
        lema_sin_isbn_ausente(a, k);
        assert(a.push(s.last()) =~= s);
        a.lemma_filter_push(s.last(), p);
    } else {
        reveal(Seq::filter);
    }
}

/// Cada libro del recorrido en orden está en el contenido bajo su ISBN.
pub proof fn lema_en_orden_en_contenido(t: Option<Box<Nodo>>)
    ensures
        forall|i: int|
            0 <= i < en_orden(t).len() ==> #[trigger] contenido(t).contains_key(en_orden(t)[i].isbn),
    decreases t,
{
    match t {
        None => {},
        Some(n) => {
            lema_en_orden_en_contenido(n.izquierdo);
            lema_en_orden_en_contenido(n.derecho);
            let a = en_orden(n.izquierdo);
            let b = en_orden(n.derecho);
            assert forall|i: int| 0 <= i < en_orden(t).len() implies #[trigger] contenido(t).contains_key(
                en_orden(t)[i].isbn,
            ) by {
                if i < a.len() {
                    assert(en_orden(t)[i] == a[i]);
                    assert(contenido(n.izquierdo).contains_key(a[i].isbn));
                } else if i > a.len() {
                    assert(en_orden(t)[i] == b[i - a.len() - 1]);
                    assert(contenido(n.derecho).contains_key(b[i - a.len() - 1].isbn));
                } else {
                    assert(en_orden(t)[i] == n.libro);
                }
            }
        },
    }
}

/// En un árbol sin el ISBN `k`, quitar los libros de ISBN `k` de su recorrido no cambia nada.
pub proof fn lema_sin_isbn_arbol(t: Option<Box<Nodo>>, k: u32)
    requires
        !contenido(t).contains_key(k),
    ensures
        sin_isbn(en_orden(t), k) == en_orden(t),
{
    lema_en_orden_en_contenido(t);
    lema_sin_isbn_ausente(en_orden(t), k);
}

impl Nodo {
    /// Un nodo hoja con el libro dado.
    pub fn nuevo(libro: Libro) -> (n: Nodo)
        ensures
            n.libro == libro,
            n.izquierdo is None,
            n.derecho is None,
            n.altura == 1,
    {
        Nodo { libro, izquierdo: None, derecho: None, altura: 1 }
    }
}

} // verus!
