//! Eliminación por ISBN con re-balanceo.
use vstd::prelude::*;
use crate::modelo::{
    Libro, Nodo, altura_real, alturas_correctas, con_altura_actualizada, contenido, en_orden,
    es_avl, extremo_izquierdo, ordenado, sin_isbn, lema_altura_guardada, lema_sin_isbn_arbol,
    lema_sin_isbn_partes,
};
use crate::altura::actualizar_altura;
use crate::balanceo::{balancear, casi_avl, lema_reequilibrado, reequilibrado};

verus! {

/// El par (hoja con el libro de más a la izquierda, árbol restante) que deja extraer ese
/// libro de `n`: sin hijo izquierdo, el resto es el hijo derecho; si no, se extrae del hijo
/// izquierdo y el nodo, con la altura actualizada, se re-balancea.
pub open spec fn tras_extraer_minimo(n: Nodo) -> (Nodo, Option<Box<Nodo>>)
    decreases n,
{
    match n.izquierdo {
        None => (Nodo { libro: n.libro, izquierdo: None, derecho: None, altura: 1 }, n.derecho),
        Some(l) => {
            let (min, resto) = tras_extraer_minimo(*l);
            (
                min,
                Some(
                    Box::new(
                        reequilibrado(con_altura_actualizada(Nodo { izquierdo: resto, ..n })),
                    ),
                ),
            )
        },
    }
}

/// Lo que garantiza extraer el mínimo de un árbol no vacío `n` con alturas correctas,
/// siendo `min` la hoja extraída y `resto` el árbol que queda (ver `extraer_minimo`).
pub open spec fn garantias_extraer_minimo(n: Nodo, min: Nodo, resto: Option<Box<Nodo>>) -> bool {
    let t = Some(Box::new(n));
    let m = min.libro.isbn;
    &&& min.izquierdo is None
    &&& min.derecho is None
    &&& min.altura == 1
    &&& min.libro == extremo_izquierdo(n)
    &&& en_orden(t) == seq![min.libro] + en_orden(resto)
    &&& alturas_correctas(resto)
    &&& altura_real(resto) <= altura_real(t)
    &&& ordenado(t) ==> {
        &&& ordenado(resto)
        &&& contenido(t).contains_key(m)
        &&& contenido(t)[m] == min.libro
        &&& forall|k: u32| #[trigger] contenido(t).contains_key(k) ==> m <= k
        &&& contenido(resto) == contenido(t).remove(m)
    }
    &&& es_avl(t) ==> {
        &&& es_avl(resto)
        &&& altura_real(t) - 1 <= altura_real(resto)
    }
}

/// Extraer el mínimo de un árbol con alturas correctas cumple `garantias_extraer_minimo`.
pub proof fn lema_extraer_minimo(n: Nodo)
    requires
        alturas_correctas(Some(Box::new(n))),
    ensures
        garantias_extraer_minimo(n, tras_extraer_minimo(n).0, tras_extraer_minimo(n).1),
    decreases n,
{
    let t = Some(Box::new(n));
    lema_altura_guardada(n.izquierdo);
    lema_altura_guardada(n.derecho);
    match n.izquierdo {
        None => {
            let min = tras_extraer_minimo(n).0;
            assert(en_orden(t) =~= seq![min.libro] + en_orden(n.derecho));
            if ordenado(t) {
                assert(contenido(n.izquierdo) == Map::<u32, Libro>::empty());
                assert(!contenido(n.derecho).contains_key(n.libro.isbn));
                assert(contenido(t) == contenido(n.derecho).insert(n.libro.isbn, n.libro));
                assert(contenido(n.derecho) =~= contenido(t).remove(min.libro.isbn));
            }
        },
        Some(l) => {
            lema_extraer_minimo(*l);
            let (min, resto) = tras_extraer_minimo(*l);
            let m1 = Nodo { izquierdo: resto, ..n };
            let m2 = con_altura_actualizada(m1);
            lema_altura_guardada(resto);
            assert(alturas_correctas(Some(Box::new(m2))));
            lema_reequilibrado(m2);
            let r = reequilibrado(m2);
            assert(en_orden(Some(Box::new(m2))) == en_orden(resto).push(n.libro) + en_orden(
                n.derecho,
            ));
            assert(en_orden(t) == en_orden(n.izquierdo).push(n.libro) + en_orden(n.derecho));
            assert(en_orden(t) =~= seq![min.libro] + en_orden(Some(Box::new(r))));
            if ordenado(t) {
                let m = min.libro.isbn;
                assert(ordenado(n.izquierdo));
                assert(contenido(n.izquierdo).contains_key(m));
                assert(m < n.libro.isbn);
                assert(!contenido(n.derecho).contains_key(m));
                assert(forall|k: u32| #[trigger] contenido(resto).contains_key(k)
                    ==> contenido(n.izquierdo).contains_key(k));
                assert(ordenado(Some(Box::new(m2))));
                assert(contenido(Some(Box::new(m2))) =~= contenido(t).remove(m));
            }
            if es_avl(t) {
                assert(casi_avl(m2));
            }
        },
    }
}

/// Extrae de `nodo`, con alturas correctas, el libro de más a la izquierda.
///
/// Devuelve una hoja con ese libro y el árbol restante (ver `tras_extraer_minimo`). El
/// recorrido en orden de `nodo` es ese libro seguido del recorrido del resto. En un árbol
/// ordenado es el libro de menor ISBN y el resto guarda todos los demás; en un AVL el resto
/// es un AVL de la misma altura o una menos.
pub fn extraer_minimo(nodo: Box<Nodo>) -> (res: (Box<Nodo>, Option<Box<Nodo>>))
    requires
        alturas_correctas(Some(nodo)),
    ensures
        (*res.0, res.1) == tras_extraer_minimo(*nodo),
        garantias_extraer_minimo(*nodo, *res.0, res.1),
    decreases nodo,
{
    proof {
        lema_extraer_minimo(*nodo);
    }
    if nodo.izquierdo.is_none() {
        let n = *nodo;
        let derecho = n.derecho;
        let min = Box::new(Nodo { libro: n.libro, izquierdo: None, derecho: None, altura: 1 });
        (min, derecho)
    } else {
        let mut nodo = nodo;
        let ghost n0 = *nodo;
        let izq = nodo.izquierdo.take().unwrap();
        let (min, nuevo_izq) = extraer_minimo(izq);
        nodo.izquierdo = nuevo_izq;
        proof {
            lema_altura_guardada(nodo.izquierdo);
            lema_altura_guardada(nodo.derecho);
        }
        actualizar_altura(&mut *nodo);
        proof {
            assert(*nodo == con_altura_actualizada(Nodo { izquierdo: nuevo_izq, ..n0 }));
            let (_, resto) = tras_extraer_minimo(*n0.izquierdo->0);
            lema_altura_guardada(resto);
            assert(alturas_correctas(Some(nodo)));
        }
        let nodo = balancear(nodo);
        (min, Some(nodo))
    }
}

/// El árbol que deja eliminar `isbn` de `t`: se baja por el camino de búsqueda; el nodo
/// con ese ISBN desaparece si es hoja, lo reemplaza su único hijo si tiene uno, y si tiene
/// dos toma el libro de su sucesor en orden (extraído del subárbol derecho). Cada nodo del
/// camino que queda se re-balancea con su altura actualizada.
pub open spec fn tras_eliminar(t: Option<Box<Nodo>>, isbn: u32) -> Option<Box<Nodo>>
    decreases t,
{
    match t {
        None => None,
        Some(n) => if isbn < n.libro.isbn {
            Some(
                Box::new(
                    reequilibrado(
                        con_altura_actualizada(
                            Nodo { izquierdo: tras_eliminar(n.izquierdo, isbn), ..*n },
                        ),
                    ),
                ),
            )
        } else if isbn > n.libro.isbn {
            Some(
                Box::new(
                    reequilibrado(
                        con_altura_actualizada(
                            Nodo { derecho: tras_eliminar(n.derecho, isbn), ..*n },
                        ),
                    ),
                ),
            )
        } else {
            match n.izquierdo {
                None => n.derecho,
                Some(i) => match n.derecho {
                    None => Some(i),
                    Some(d) => {
                        let (s, nd) = tras_extraer_minimo(*d);
                        Some(
                            Box::new(
                                reequilibrado(
                                    con_altura_actualizada(
                                        Nodo {
                                            libro: s.libro,
                                            izquierdo: Some(i),
                                            derecho: nd,
                                            altura: n.altura,
                                        },
                                    ),
                                ),
                            ),
                        )
                    },
                },
            }
        },
    }
}

/// Lo que garantiza eliminar `isbn` de un árbol `t` con alturas correctas, siendo `r` el
/// resultado (ver `eliminar`).
pub open spec fn garantias_eliminar(t: Option<Box<Nodo>>, isbn: u32, r: Option<Box<Nodo>>) -> bool {
    &&& alturas_correctas(r)
    &&& altura_real(r) <= altura_real(t)
    &&& ordenado(t) ==> {
        &&& ordenado(r)
        &&& contenido(r) == contenido(t).remove(isbn)
        &&& en_orden(r) == sin_isbn(en_orden(t), isbn)
    }
    &&& es_avl(t) ==> {
        &&& es_avl(r)
        &&& altura_real(t) - 1 <= altura_real(r)
        &&& !contenido(t).contains_key(isbn) ==> r == t
    }
}

/// Eliminar de un árbol con alturas correctas cumple `garantias_eliminar`.
pub proof fn lema_eliminar(t: Option<Box<Nodo>>, isbn: u32)
    requires
        alturas_correctas(t),
    ensures
        garantias_eliminar(t, isbn, tras_eliminar(t, isbn)),
    decreases t,
{
    match t {
        None => {
            assert(contenido(t).remove(isbn) =~= contenido(t));
            lema_sin_isbn_arbol(t, isbn);
        },
        Some(n) => {
            if isbn < n.libro.isbn {
                lema_eliminar(n.izquierdo, isbn);
                lema_eliminar_a_la_izquierda(*n, isbn);
            } else if isbn > n.libro.isbn {
                lema_eliminar(n.derecho, isbn);
                lema_eliminar_a_la_derecha(*n, isbn);
            } else {
                lema_eliminar_en_la_raiz(*n, isbn);
            }
        },
    }
}

proof fn lema_eliminar_a_la_izquierda(n: Nodo, isbn: u32)
    requires
        alturas_correctas(Some(Box::new(n))),
        isbn < n.libro.isbn,
        garantias_eliminar(n.izquierdo, isbn, tras_eliminar(n.izquierdo, isbn)),
    ensures
        garantias_eliminar(Some(Box::new(n)), isbn, tras_eliminar(Some(Box::new(n)), isbn)),
{
    let t = Some(Box::new(n));
    lema_altura_guardada(n.izquierdo);
    lema_altura_guardada(n.derecho);
    let nl = tras_eliminar(n.izquierdo, isbn);
    lema_altura_guardada(nl);
    let m = con_altura_actualizada(Nodo { izquierdo: nl, ..n });
    assert(alturas_correctas(Some(Box::new(m))));
    lema_reequilibrado(m);
    if ordenado(t) {
        assert(!contenido(n.derecho).contains_key(isbn));
        assert(forall|k: u32| #[trigger] contenido(nl).contains_key(k)
            ==> contenido(n.izquierdo).contains_key(k));
        assert(ordenado(Some(Box::new(m))));
        assert(contenido(Some(Box::new(m))) =~= contenido(t).remove(isbn));
        lema_sin_isbn_partes(en_orden(n.izquierdo), n.libro, en_orden(n.derecho), isbn);
        lema_sin_isbn_arbol(n.derecho, isbn);
        assert(en_orden(Some(Box::new(m))) == en_orden(nl).push(n.libro) + en_orden(n.derecho));
    }
    if es_avl(t) {
        assert(casi_avl(m));
        if !contenido(t).contains_key(isbn) {
            assert(m == n);
        }
    }
}

proof fn lema_eliminar_a_la_derecha(n: Nodo, isbn: u32)
    requires
        alturas_correctas(Some(Box::new(n))),
        isbn > n.libro.isbn,
        garantias_eliminar(n.derecho, isbn, tras_eliminar(n.derecho, isbn)),
    ensures
        garantias_eliminar(Some(Box::new(n)), isbn, tras_eliminar(Some(Box::new(n)), isbn)),
{
    let t = Some(Box::new(n));
    lema_altura_guardada(n.izquierdo);
    lema_altura_guardada(n.derecho);
    let nd = tras_eliminar(n.derecho, isbn);
    lema_altura_guardada(nd);
    let m = con_altura_actualizada(Nodo { derecho: nd, ..n });
    assert(alturas_correctas(Some(Box::new(m))));
    lema_reequilibrado(m);
    if ordenado(t) {
        assert(!contenido(n.izquierdo).contains_key(isbn));
        assert(forall|k: u32| #[trigger] contenido(nd).contains_key(k)
            ==> contenido(n.derecho).contains_key(k));
        assert(ordenado(Some(Box::new(m))));
        assert(contenido(Some(Box::new(m))) =~= contenido(t).remove(isbn));
        lema_sin_isbn_partes(en_orden(n.izquierdo), n.libro, en_orden(n.derecho), isbn);
        lema_sin_isbn_arbol(n.izquierdo, isbn);
        assert(en_orden(Some(Box::new(m))) == en_orden(n.izquierdo).push(n.libro) + en_orden(nd));
    }
    if es_avl(t) {
        assert(casi_avl(m));
        if !contenido(t).contains_key(isbn) {
            assert(m == n);
        }
    }
}

proof fn lema_eliminar_en_la_raiz(n: Nodo, isbn: u32)
    requires
        alturas_correctas(Some(Box::new(n))),
        isbn == n.libro.isbn,
    ensures
        garantias_eliminar(Some(Box::new(n)), isbn, tras_eliminar(Some(Box::new(n)), isbn)),
{
    let t = Some(Box::new(n));
    if n.izquierdo is None {
        lema_eliminar_sin_hijo_izquierdo(n, isbn);
        assert(tras_eliminar(t, isbn) == n.derecho);
    } else if n.derecho is None {
        lema_eliminar_sin_hijo_derecho(n, isbn);
        assert(tras_eliminar(t, isbn) == n.izquierdo);
    } else {
        if ordenado(Some(Box::new(n))) {
            lema_quitar_la_raiz(n);
        }
        lema_eliminar_con_dos_hijos(n, isbn);
    }
}

proof fn lema_eliminar_sin_hijo_izquierdo(n: Nodo, isbn: u32)
    requires
        alturas_correctas(Some(Box::new(n))),
        isbn == n.libro.isbn,
        n.izquierdo is None,
    ensures
        garantias_eliminar(Some(Box::new(n)), isbn, n.derecho),
{
    let t = Some(Box::new(n));
    lema_altura_guardada(n.derecho);
    assert(alturas_correctas(n.derecho));
    assert(altura_real(n.derecho) <= altura_real(t));
    if es_avl(t) {
        assert(es_avl(n.derecho));
        assert(altura_real(t) - 1 <= altura_real(n.derecho));
    }
    if ordenado(t) {
        lema_quitar_raiz_sin_izquierdo(n);
    }
}

proof fn lema_eliminar_sin_hijo_derecho(n: Nodo, isbn: u32)
    requires
        alturas_correctas(Some(Box::new(n))),
        isbn == n.libro.isbn,
        n.izquierdo is Some,
        n.derecho is None,
    ensures
        garantias_eliminar(Some(Box::new(n)), isbn, n.izquierdo),
{
    let t = Some(Box::new(n));
    lema_altura_guardada(n.izquierdo);
    assert(alturas_correctas(n.izquierdo));
    assert(altura_real(n.izquierdo) <= altura_real(t));
    if es_avl(t) {
        assert(es_avl(n.izquierdo));
        assert(altura_real(t) - 1 <= altura_real(n.izquierdo));
    }
    if ordenado(t) {
        lema_quitar_raiz_sin_derecho(n);
    }
}

/// En un nodo ordenado, quitar el ISBN de la raíz de su recorrido deja el recorrido del
/// hijo izquierdo seguido del derecho, y ningún hijo tiene ese ISBN.
proof fn lema_quitar_la_raiz(n: Nodo)
    requires
        ordenado(Some(Box::new(n))),
    ensures
        !contenido(n.izquierdo).contains_key(n.libro.isbn),
        !contenido(n.derecho).contains_key(n.libro.isbn),
        sin_isbn(en_orden(Some(Box::new(n))), n.libro.isbn) == en_orden(n.izquierdo) + en_orden(
            n.derecho,
        ),
{
    let isbn = n.libro.isbn;
    assert(!contenido(n.izquierdo).contains_key(isbn));
    assert(!contenido(n.derecho).contains_key(isbn));
    lema_sin_isbn_partes(en_orden(n.izquierdo), n.libro, en_orden(n.derecho), isbn);
    lema_sin_isbn_arbol(n.izquierdo, isbn);
    lema_sin_isbn_arbol(n.derecho, isbn);
}

/// En un nodo ordenado sin hijo izquierdo, el hijo derecho es el nodo sin su raíz.
proof fn lema_quitar_raiz_sin_izquierdo(n: Nodo)
    requires
        ordenado(Some(Box::new(n))),
        n.izquierdo is None,
    ensures
        ordenado(n.derecho),
        contenido(n.derecho) == contenido(Some(Box::new(n))).remove(n.libro.isbn),
        en_orden(n.derecho) == sin_isbn(en_orden(Some(Box::new(n))), n.libro.isbn),
{
    let t = Some(Box::new(n));
    lema_quitar_la_raiz(n);
    assert(contenido(n.derecho) =~= contenido(t).remove(n.libro.isbn));
    assert(en_orden(n.izquierdo) + en_orden(n.derecho) =~= en_orden(n.derecho));
}

/// En un nodo ordenado sin hijo derecho, el hijo izquierdo es el nodo sin su raíz.
proof fn lema_quitar_raiz_sin_derecho(n: Nodo)
    requires
        ordenado(Some(Box::new(n))),
        n.derecho is None,
    ensures
        ordenado(n.izquierdo),
        contenido(n.izquierdo) == contenido(Some(Box::new(n))).remove(n.libro.isbn),
        en_orden(n.izquierdo) == sin_isbn(en_orden(Some(Box::new(n))), n.libro.isbn),
{
    lema_en_orden_sin_derecho(n);
    lema_contenido_sin_derecho(n);
}

proof fn lema_en_orden_sin_derecho(n: Nodo)
    requires
        ordenado(Some(Box::new(n))),
        n.derecho is None,
    ensures
        en_orden(n.izquierdo) == sin_isbn(en_orden(Some(Box::new(n))), n.libro.isbn),
{
    lema_quitar_la_raiz(n);
    assert(en_orden(n.izquierdo) + en_orden(n.derecho) =~= en_orden(n.izquierdo));
}

proof fn lema_contenido_sin_derecho(n: Nodo)
    requires
        ordenado(Some(Box::new(n))),
        n.derecho is None,
    ensures
        ordenado(n.izquierdo),
        contenido(n.izquierdo) == contenido(Some(Box::new(n))).remove(n.libro.isbn),
{
    assert(!contenido(n.izquierdo).contains_key(n.libro.isbn));
    assert(contenido(n.derecho) =~= Map::<u32, Libro>::empty());
    assert(contenido(n.izquierdo).union_prefer_right(contenido(n.derecho)) =~= contenido(
        n.izquierdo,
    ));
    assert(contenido(n.izquierdo) =~= contenido(Some(Box::new(n))).remove(n.libro.isbn));
}

proof fn lema_eliminar_con_dos_hijos(n: Nodo, isbn: u32)
    requires
        alturas_correctas(Some(Box::new(n))),
        isbn == n.libro.isbn,
        n.izquierdo is Some,
        n.derecho is Some,
        ordenado(Some(Box::new(n))) ==> sin_isbn(en_orden(Some(Box::new(n))), isbn) == en_orden(
            n.izquierdo,
        ) + en_orden(n.derecho),
    ensures
        garantias_eliminar(Some(Box::new(n)), isbn, tras_eliminar(Some(Box::new(n)), isbn)),
{
    let t = Some(Box::new(n));
    let i = n.izquierdo->0;
    let d = n.derecho->0;
    lema_altura_guardada(n.izquierdo);
    lema_altura_guardada(n.derecho);
    lema_extraer_minimo(*d);
    let (s, nd) = tras_extraer_minimo(*d);
    lema_altura_guardada(nd);
    let m = con_altura_actualizada(
        Nodo { libro: s.libro, izquierdo: Some(i), derecho: nd, altura: n.altura },
    );
    assert(alturas_correctas(Some(Box::new(m))));
    lema_reequilibrado(m);
    if ordenado(t) {
        let k = s.libro.isbn;
        assert(contenido(Some(d)).contains_key(k));
        assert(isbn < k);
        assert(forall|j: u32| #[trigger] contenido(nd).contains_key(j) ==> k < j);
        assert(forall|j: u32| #[trigger] contenido(Some(i)).contains_key(j) ==> j < k);
        assert(!contenido(n.izquierdo).contains_key(isbn));
        assert(!contenido(n.derecho).contains_key(isbn));
        assert(ordenado(Some(Box::new(m))));
        assert(contenido(Some(Box::new(m))) =~= contenido(t).remove(isbn));
        assert(en_orden(Some(Box::new(m))) == en_orden(Some(i)).push(s.libro) + en_orden(nd));
        assert(en_orden(Some(Box::new(m))) =~= en_orden(n.izquierdo) + en_orden(n.derecho));
    }
    if es_avl(t) {
        assert(casi_avl(m));
    }
}

/// Elimina de `nodo_opt`, con alturas correctas, el libro con ISBN `isbn` y devuelve la
/// nueva raíz (ver `tras_eliminar`).
///
/// Un nodo hoja desaparece, uno con un solo hijo se reemplaza por ese hijo y uno con dos
/// hijos toma el libro de su sucesor en orden (el menor del subárbol derecho). Después se
/// actualiza la altura y se re-balancea. Las alturas siguen correctas y la altura no crece.
/// En un árbol ordenado el resultado está ordenado y tiene el contenido anterior menos ese
/// ISBN; en un AVL es un AVL de la misma altura o una menos, y un ISBN ausente lo deja tal
/// cual.
pub fn eliminar(nodo_opt: Option<Box<Nodo>>, isbn: u32) -> (r: Option<Box<Nodo>>)
    requires
        alturas_correctas(nodo_opt),
    ensures
        r == tras_eliminar(nodo_opt, isbn),
        garantias_eliminar(nodo_opt, isbn, r),
    decreases nodo_opt,
{
    proof {
        lema_eliminar(nodo_opt, isbn);
    }
    let mut nodo = match nodo_opt {
        None => return None,
        Some(n) => n,
    };
    let ghost n0 = *nodo;
    proof {
        lema_altura_guardada(nodo.izquierdo);
        lema_altura_guardada(nodo.derecho);
    }

    if isbn < nodo.libro.isbn {
        nodo.izquierdo = eliminar(nodo.izquierdo.take(), isbn);
    } else if isbn > nodo.libro.isbn {
        nodo.derecho = eliminar(nodo.derecho.take(), isbn);
    } else {
        match (nodo.izquierdo.take(), nodo.derecho.take()) {
            (None, None) => return None,
            (None, Some(der)) => return Some(der),
            (Some(izq), None) => return Some(izq),
            (Some(izq), Some(der)) => {
                let (sucesor, nuevo_der) = extraer_minimo(der);
                let suc = *sucesor;
                nodo.libro = suc.libro;
                nodo.izquierdo = Some(izq);
                nodo.derecho = nuevo_der;
            },
        }
    }

    proof {
        lema_altura_guardada(nodo.izquierdo);
        lema_altura_guardada(nodo.derecho);
    }
    actualizar_altura(&mut *nodo);
    proof {
        assert(alturas_correctas(Some(nodo)));
    }
    Some(balancear(nodo))
}

} // verus!
